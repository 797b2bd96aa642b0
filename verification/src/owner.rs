//! Non-authoritative diagnostics about the owner of a lock.

use vstd::prelude::*;
use vstd::string::*;

use crate::span::WallTime;
use crate::text::{append_decimal, chars_of};
#[allow(unused_imports)]
use crate::text::{
    decimal, find, law_decimal_reads_back, lemma_find, lemma_find_is, lemma_split_absent,
    lemma_split_at, split,
};

verus! {

/// Mathematical form of an owner description.
pub struct OwnerView {
    pub pid: u32,
    pub hostname: Option<Seq<char>>,
    pub executable: Option<Seq<char>>,
    pub thread: Option<Seq<char>>,
    pub operation: Seq<char>,
    pub acquired_at: WallTime,
}

/// Non-authoritative diagnostics describing the process that most recently
/// acquired a lock. Descriptor ownership, never this metadata, is authoritative.
#[derive(Debug)]
pub struct OwnerInfo {
    pub pid: u32,
    pub hostname: Option<String>,
    pub executable: Option<String>,
    pub thread: Option<String>,
    pub operation: String,
    pub acquired_at: WallTime,
}

pub open spec fn optional_text(text: Option<String>) -> Option<Seq<char>> {
    match text {
        Some(value) => Some(value@),
        None => None,
    }
}

impl View for OwnerInfo {
    type V = OwnerView;

    open spec fn view(&self) -> OwnerView {
        OwnerView {
            pid: self.pid,
            hostname: optional_text(self.hostname),
            executable: optional_text(self.executable),
            thread: optional_text(self.thread),
            operation: self.operation@,
            acquired_at: self.acquired_at,
        }
    }
}

/// A copy of the text, where there is one.
pub fn copy_text(text: &Option<String>) -> (copy: Option<String>)
    ensures
        optional_text(copy) == optional_text(*text),
{
    match text {
        Some(value) => Some(value.as_str().to_owned()),
        None => None,
    }
}

impl Clone for OwnerInfo {
    fn clone(&self) -> (copy: Self)
        ensures
            copy@ == self@,
    {
        OwnerInfo {
            pid: self.pid,
            hostname: copy_text(&self.hostname),
            executable: copy_text(&self.executable),
            thread: copy_text(&self.thread),
            operation: self.operation.as_str().to_owned(),
            acquired_at: self.acquired_at,
        }
    }
}

/// A line break becomes a space.
pub open spec fn clean_char(c: char) -> char {
    if c == '\r' || c == '\n' {
        ' '
    } else {
        c
    }
}

/// The text on one line.
pub open spec fn cleaned(text: Seq<char>) -> Seq<char> {
    text.map_values(|c: char| clean_char(c))
}

/// The text on one line; nothing where there is none.
pub open spec fn cleaned_optional(text: Option<Seq<char>>) -> Seq<char> {
    match text {
        Some(value) => cleaned(value),
        None => Seq::empty(),
    }
}

/// What is written into the lock file about its owner.
pub open spec fn diagnostics_text(owner: OwnerView) -> Seq<char> {
    "# zed-lock diagnostics only; descriptor ownership is authoritative\npid="@ + decimal(
        owner.pid as nat,
    ) + "\nhostname="@ + cleaned_optional(owner.hostname) + "\nexecutable="@ + cleaned_optional(
        owner.executable,
    ) + "\nthread="@ + cleaned_optional(owner.thread) + "\noperation="@ + cleaned(owner.operation)
        + "\nacquired_unix_ms="@ + decimal(owner.acquired_at.spec_unix_millis() as nat) + "\n"@
}

fn append_cleaned(out: &mut String, text: &str)
    ensures
        final(out)@ == old(out)@ + cleaned(text@),
{
    let chars = chars_of(text);
    let mut i: usize = 0;
    assert(out@ =~= old(out)@ + cleaned(text@.take(0)));
    while i < chars.len()
        invariant
            chars@ == text@,
            i <= chars.len(),
            out@ == old(out)@ + cleaned(text@.take(i as int)),
        decreases chars.len() - i,
    {
        let c: char = chars[i];
        let ghost before = out@;
        if c == '\r' || c == '\n' {
            out.push(' ');
        } else {
            out.push(c);
        }
        assert(cleaned(text@.take(i + 1)) =~= cleaned(text@.take(i as int)).push(clean_char(c)));
        assert(out@ =~= old(out)@ + cleaned(text@.take(i + 1)));
        i += 1;
    }
    assert(text@.take(text@.len() as int) =~= text@);
}

fn append_optional(out: &mut String, text: &Option<String>)
    ensures
        final(out)@ == old(out)@ + cleaned_optional(optional_text(*text)),
{
    match text {
        Some(value) => {
            append_cleaned(out, value.as_str());
        },
        None => {
            assert(out@ =~= old(out)@ + Seq::<char>::empty());
        },
    }
}

impl OwnerInfo {
    /// When the lock was acquired, in milliseconds since the Unix epoch.
    pub fn acquired_unix_millis(&self) -> (millis: u128)
        ensures
            millis == self@.acquired_at.spec_unix_millis(),
    {
        self.acquired_at.unix_millis()
    }

    /// The body that is written into the lock file.
    pub fn owner_diagnostics(&self) -> (body: String)
        ensures
            body@ == diagnostics_text(self@),
    {
        let mut body =
            "# zed-lock diagnostics only; descriptor ownership is authoritative\npid=".to_owned();
        append_decimal(&mut body, self.pid as u128);
        body.append("\nhostname=");
        append_optional(&mut body, &self.hostname);
        body.append("\nexecutable=");
        append_optional(&mut body, &self.executable);
        body.append("\nthread=");
        append_optional(&mut body, &self.thread);
        body.append("\noperation=");
        append_cleaned(&mut body, self.operation.as_str());
        body.append("\nacquired_unix_ms=");
        append_decimal(&mut body, self.acquired_unix_millis());
        body.append("\n");
        body
    }
}

/// A cleaned value has no line breaks, so it cannot add or split a line.
pub proof fn law_cleaned_text_is_one_line(text: Seq<char>)
    ensures
        cleaned(text).len() == text.len(),
        !cleaned(text).contains('\r'),
        !cleaned(text).contains('\n'),
{
}

/// Cleaning turns a carriage return and a line feed into a space each and
/// leaves every other character as it is.
pub proof fn law_cleaning_replaces_line_breaks_only(text: Seq<char>, i: int)
    requires
        0 <= i < text.len(),
    ensures
        cleaned(text).len() == text.len(),
        text[i] as int == 13 || text[i] as int == 10 ==> cleaned(text)[i] == ' ',
        text[i] as int != 13 && text[i] as int != 10 ==> cleaned(text)[i] == text[i],
        cleaned_optional(Some(text)) == cleaned(text),
        cleaned_optional(None) == Seq::<char>::empty(),
{
}

/// The diagnostics read back line by line: a heading, then each field behind its
/// name, the numbers in decimal and the texts on one line each, and nothing
/// after the last line break.
pub proof fn law_diagnostics_read_back(owner: OwnerView)
    ensures
        split(diagnostics_text(owner), '\n') == seq![
            "# zed-lock diagnostics only; descriptor ownership is authoritative"@,
            "pid="@ + decimal(owner.pid as nat),
            "hostname="@ + cleaned_optional(owner.hostname),
            "executable="@ + cleaned_optional(owner.executable),
            "thread="@ + cleaned_optional(owner.thread),
            "operation="@ + cleaned(owner.operation),
            "acquired_unix_ms="@ + decimal(owner.acquired_at.spec_unix_millis() as nat),
            Seq::empty(),
        ],
{
    reveal_strlit("# zed-lock diagnostics only; descriptor ownership is authoritative\npid=");
    reveal_strlit("# zed-lock diagnostics only; descriptor ownership is authoritative");
    reveal_strlit("pid=");
    reveal_strlit("\nhostname=");
    reveal_strlit("hostname=");
    reveal_strlit("\nexecutable=");
    reveal_strlit("executable=");
    reveal_strlit("\nthread=");
    reveal_strlit("thread=");
    reveal_strlit("\noperation=");
    reveal_strlit("operation=");
    reveal_strlit("\nacquired_unix_ms=");
    reveal_strlit("acquired_unix_ms=");
    reveal_strlit("\n");
    let pid = "pid="@ + decimal(owner.pid as nat);
    let hostname = "hostname="@ + cleaned_optional(owner.hostname);
    let executable = "executable="@ + cleaned_optional(owner.executable);
    let thread = "thread="@ + cleaned_optional(owner.thread);
    let operation = "operation="@ + cleaned(owner.operation);
    let time = "acquired_unix_ms="@ + decimal(owner.acquired_at.spec_unix_millis() as nat);
    let heading = "# zed-lock diagnostics only; descriptor ownership is authoritative"@;
    let line = seq!['\n'];
    let none = Seq::<char>::empty();
    lemma_number_line("pid="@, owner.pid as nat);
    lemma_number_line("acquired_unix_ms="@, owner.acquired_at.spec_unix_millis() as nat);
    lemma_text_line("hostname="@, owner.hostname);
    lemma_text_line("executable="@, owner.executable);
    lemma_text_line("thread="@, owner.thread);
    lemma_text_line("operation="@, Some(owner.operation));
    assert(!heading.contains('\n'));
    let from_time = time + line + none;
    let from_operation = operation + line + from_time;
    let from_thread = thread + line + from_operation;
    let from_executable = executable + line + from_thread;
    let from_hostname = hostname + line + from_executable;
    let from_pid = pid + line + from_hostname;
    assert("\n"@ =~= line);
    assert("\nhostname="@ =~= line + "hostname="@);
    assert("\nexecutable="@ =~= line + "executable="@);
    assert("\nthread="@ =~= line + "thread="@);
    assert("\noperation="@ =~= line + "operation="@);
    assert("\nacquired_unix_ms="@ =~= line + "acquired_unix_ms="@);
    assert("# zed-lock diagnostics only; descriptor ownership is authoritative\npid="@ =~= heading
        + line + "pid="@);
    assert(diagnostics_text(owner) =~= heading + line + from_pid);
    lemma_split_absent(none, '\n');
    lemma_split_at(time, '\n', none);
    lemma_split_at(operation, '\n', from_time);
    lemma_split_at(thread, '\n', from_operation);
    lemma_split_at(executable, '\n', from_thread);
    lemma_split_at(hostname, '\n', from_executable);
    lemma_split_at(pid, '\n', from_hostname);
    lemma_split_at(heading, '\n', from_pid);
}

/// A named number has no line break.
proof fn lemma_number_line(name: Seq<char>, n: nat)
    requires
        !name.contains('\n'),
    ensures
        !(name + decimal(n)).contains('\n'),
{
    law_decimal_reads_back(n);
    let text = name + decimal(n);
    assert forall|i: int| 0 <= i < text.len() implies text[i] != '\n' by {
        if i < name.len() {
            assert(name.contains(name[i]));
        } else {
            assert(text[i] == decimal(n)[i - name.len()]);
        }
    }
}

/// A named text has no line break.
proof fn lemma_text_line(name: Seq<char>, value: Option<Seq<char>>)
    requires
        !name.contains('\n'),
    ensures
        !(name + cleaned_optional(value)).contains('\n'),
{
    let text = name + cleaned_optional(value);
    assert forall|i: int| 0 <= i < text.len() implies text[i] != '\n' by {
        if i < name.len() {
            assert(name.contains(name[i]));
        } else {
            assert(text[i] == cleaned_optional(value)[i - name.len()]);
        }
    }
}

} // verus!
