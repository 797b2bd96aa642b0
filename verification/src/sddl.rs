//! Classification of Windows access-control lists in their SDDL text form.
//!
//! Nothing here calls a Windows interface: a DACL comes in as text, and the
//! classifiers say whether it keeps a lock rendezvous private to one user.

use vstd::prelude::*;

use crate::text::{
    chars_of, contains, count_char, equals_ignoring_case, find_char, split_chars, starts_with,
    upper_chars, upper_is,
};
#[allow(unused_imports)]
use crate::text::{
    ascii_upper, ascii_uppercase, contains_part, count, find, lemma_find, lemma_find_is,
    same_ignoring_case, split, views,
};

verus! {

/// Access-mask bits that let a trustee write, delete, re-own or re-permission
/// a directory, or that grant all or write access generically.
pub const MODIFY_MASK: u32 = 0x500d_0156;

/// Mathematical form of one access-control entry.
pub struct AceView {
    pub kind: Seq<char>,
    pub rights: Seq<char>,
    pub trustee: Seq<char>,
}

/// One parsed access-control entry.
pub struct Ace {
    pub kind: Vec<char>,
    pub rights: Vec<char>,
    pub trustee: Vec<char>,
}

impl View for Ace {
    type V = AceView;

    open spec fn view(&self) -> AceView {
        AceView { kind: self.kind@, rights: self.rights@, trustee: self.trustee@ }
    }
}

/// The pieces that hold a closing parenthesis, each cut off before it.
pub open spec fn closed_prefixes(tails: Seq<Seq<char>>) -> Seq<Seq<char>>
    decreases tails.len(),
{
    if tails.len() == 0 {
        Seq::empty()
    } else {
        let before = closed_prefixes(tails.drop_last());
        let at = find(tails.last(), ')');
        if at < tails.last().len() {
            before.push(tails.last().take(at))
        } else {
            before
        }
    }
}

/// The texts between each opening parenthesis and the next closing one.
pub open spec fn ace_texts(sddl: Seq<char>) -> Seq<Seq<char>> {
    closed_prefixes(split(sddl, '(').skip(1))
}

/// An entry has exactly six fields: type, flags, rights, object, inherited
/// object and trustee.
pub open spec fn parsed_ace(text: Seq<char>) -> Option<AceView> {
    let fields = split(text, ';');
    if fields.len() == 6 {
        Some(AceView { kind: fields[0], rights: fields[2], trustee: fields[5] })
    } else {
        None
    }
}

pub open spec fn is_allow(ace: AceView) -> bool {
    ascii_uppercase(ace.kind) == "A"@
}

pub open spec fn is_deny(ace: AceView) -> bool {
    ascii_uppercase(ace.kind) == "D"@
}

/// Rights that amount to full control.
pub open spec fn full_control(rights: Seq<char>) -> bool {
    let upper = ascii_uppercase(rights);
    upper == "FA"@ || upper == "GA"@ || upper == "0X1F01FF"@ || upper == "0X10000000"@
}

/// The trustee is the user with this security identifier.
pub open spec fn trustee_is(trustee: Seq<char>, sid: Seq<char>) -> bool {
    same_ignoring_case(trustee, sid) || (ascii_uppercase(trustee) == "SY"@ && ascii_uppercase(sid)
        == "S-1-5-18"@)
}

/// Local system, built-in administrators and the local administrator.
pub open spec fn privileged_controller(trustee: Seq<char>) -> bool {
    let upper = ascii_uppercase(trustee);
    upper == "SY"@ || upper == "BA"@ || upper == "LA"@
}

/// Everyone, authenticated users and built-in users, by alias or identifier.
pub open spec fn broad_trustee(trustee: Seq<char>) -> bool {
    let upper = ascii_uppercase(trustee);
    upper == "WD"@ || upper == "AU"@ || upper == "BU"@ || upper == "S-1-1-0"@ || upper
        == "S-1-5-11"@ || upper == "S-1-5-32-545"@
}

/// Value of one hexadecimal digit in upper case.
pub open spec fn hex_digit(c: char) -> Option<nat> {
    if '0' <= c <= '9' {
        Some((c as int - '0' as int) as nat)
    } else if 'A' <= c <= 'F' {
        Some((c as int - 'A' as int + 10) as nat)
    } else {
        None
    }
}

/// Every character is a hexadecimal digit.
pub open spec fn all_hex(digits: Seq<char>) -> bool {
    forall|i: int| 0 <= i < digits.len() ==> hex_digit(#[trigger] digits[i]) is Some
}

/// Value of a string of hexadecimal digits.
pub open spec fn hex_value(digits: Seq<char>) -> nat
    decreases digits.len(),
{
    if digits.len() == 0 {
        0
    } else {
        hex_value(digits.drop_last()) * 16 + hex_digit(digits.last()).unwrap_or(0)
    }
}

/// A 32-bit mask in upper-case hexadecimal, with an optional plus sign.
pub open spec fn hex_mask(text: Seq<char>) -> Option<u32> {
    let digits = if text.len() > 0 && text[0] == '+' {
        text.skip(1)
    } else {
        text
    };
    if digits.len() > 0 && all_hex(digits) && hex_value(digits) <= u32::MAX {
        Some(hex_value(digits) as u32)
    } else {
        None
    }
}

/// Two-letter right that neither writes, deletes nor changes permissions.
pub open spec fn read_only_right(a: char, b: char) -> bool {
    ||| (a == 'F' && (b == 'R' || b == 'X'))
    ||| (a == 'G' && (b == 'R' || b == 'X'))
    ||| (a == 'R' && (b == 'C' || b == 'P'))
    ||| (a == 'L' && (b == 'C' || b == 'O'))
}

/// Rights that may modify the object. Whatever cannot be read as a known
/// read-only set counts as modifying.
pub open spec fn can_modify(rights: Seq<char>) -> bool {
    let upper = ascii_uppercase(rights);
    if "0X"@.is_prefix_of(upper) {
        match hex_mask(upper.skip(2)) {
            Some(mask) => mask & MODIFY_MASK != 0,
            None => true,
        }
    } else {
        ||| upper.len() % 2 != 0
        ||| exists|i: int|
            0 <= i < upper.len() / 2 && !read_only_right(
                #[trigger] upper[2 * i],
                upper[2 * i + 1],
            )
    }
}

/// An entry that a private list may hold: a denial, or a grant that does not
/// let a broad group modify the object.
pub open spec fn acceptable_ace(text: Seq<char>) -> bool {
    match parsed_ace(text) {
        Some(ace) => is_deny(ace) || (is_allow(ace) && !(broad_trustee(ace.trustee)
            && can_modify(ace.rights))),
        None => false,
    }
}

/// An entry that gives full control to the user or to a privileged controller.
pub open spec fn grants_control(text: Seq<char>, sid: Seq<char>) -> bool {
    match parsed_ace(text) {
        Some(ace) => is_allow(ace) && (trustee_is(ace.trustee, sid) || privileged_controller(
            ace.trustee,
        )) && full_control(ace.rights),
        None => false,
    }
}

/// An entry that gives full control to the user.
pub open spec fn grants_user_control(text: Seq<char>, sid: Seq<char>) -> bool {
    match parsed_ace(text) {
        Some(ace) => is_allow(ace) && trustee_is(ace.trustee, sid) && full_control(ace.rights),
        None => false,
    }
}

/// An entry that grants anything to a broad group.
pub open spec fn grants_broadly(text: Seq<char>) -> bool {
    match parsed_ace(text) {
        Some(ace) => is_allow(ace) && broad_trustee(ace.trustee),
        None => false,
    }
}

/// The list is private to the user: balanced, every entry closed and
/// acceptable, and at least one grant of full control to the user or a
/// privileged controller.
pub open spec fn user_private(sddl: Seq<char>, sid: Seq<char>) -> bool {
    let aces = ace_texts(sddl);
    &&& sid.len() > 0
    &&& count(sddl, '(') == count(sddl, ')')
    &&& aces.len() == count(sddl, '(')
    &&& forall|i: int| 0 <= i < aces.len() ==> acceptable_ace(#[trigger] aces[i])
    &&& exists|i: int| 0 <= i < aces.len() && grants_control(#[trigger] aces[i], sid)
}

/// The list opts out of inheritance.
pub open spec fn protected_dacl(sddl: Seq<char>) -> bool {
    let upper = ascii_uppercase(sddl);
    contains_part(upper, "D:P("@) || contains_part(upper, "D:PAI("@) || "D:P"@.is_prefix_of(upper)
}

/// Private, with control for the user and nothing at all for a broad group.
pub open spec fn exclusive_user_private(sddl: Seq<char>, sid: Seq<char>) -> bool {
    let aces = ace_texts(sddl);
    &&& user_private(sddl, sid)
    &&& exists|i: int| 0 <= i < aces.len() && grants_user_control(#[trigger] aces[i], sid)
    &&& forall|i: int| 0 <= i < aces.len() ==> !grants_broadly(#[trigger] aces[i])
}

/// Protected and exclusive to the user.
pub open spec fn protected_user_private(sddl: Seq<char>, sid: Seq<char>) -> bool {
    protected_dacl(sddl) && exclusive_user_private(sddl, sid)
}

/// The entries of a DACL, from the first parenthesis on; none where the text
/// before it is not a DACL header.
pub open spec fn ace_section(sddl: Seq<char>) -> Option<Seq<char>> {
    let at = find(sddl, '(');
    if at < sddl.len() && "D:"@.is_prefix_of(ascii_uppercase(sddl.take(at))) {
        Some(sddl.skip(at))
    } else {
        None
    }
}

/// Both texts are DACLs with the same entries, up to ASCII case.
pub open spec fn same_dacl_aces(actual: Seq<char>, expected: Seq<char>) -> bool {
    match (ace_section(actual), ace_section(expected)) {
        (Some(a), Some(b)) => same_ignoring_case(a, b),
        _ => false,
    }
}

/// Text of the protected list that grants full access to one user only.
pub open spec fn private_sddl_text(sid: Seq<char>) -> Seq<char> {
    "D:P(A;;FA;;;"@ + sid + ")"@
}

/// Protected DACL granting `FA` only to `sid`.
pub fn user_private_sddl(sid: &str) -> (sddl: String)
    ensures
        sddl@ == private_sddl_text(sid@),
{
    let mut sddl = "D:P(A;;FA;;;".to_owned();
    sddl.append(sid);
    sddl.append(")");
    sddl
}

/// The entry texts of a list.
fn sddl_aces(sddl: &[char]) -> (aces: Vec<Vec<char>>)
    ensures
        views(aces@) == ace_texts(sddl@),
{
    let parts = split_chars(sddl, '(');
    let ghost tails = views(parts@).skip(1);
    let mut aces: Vec<Vec<char>> = Vec::new();
    let mut i: usize = 1;
    proof {
        lemma_split_not_empty(sddl@, '(');
        assert(tails.take(0) =~= Seq::<Seq<char>>::empty());
        assert(views(aces@) =~= Seq::<Seq<char>>::empty());
    }
    while i < parts.len()
        invariant
            1 <= i <= parts.len(),
            tails == views(parts@).skip(1),
            views(aces@) == closed_prefixes(tails.take(i - 1)),
        decreases parts.len() - i,
    {
        let tail = parts[i].as_slice();
        let ghost before = views(aces@);
        assert(tail@.skip(0) =~= tail@);
        assert(tails.take(i as int).drop_last() =~= tails.take(i - 1));
        assert(tails.take(i as int).last() == tail@);
        let at: usize = find_char(tail, ')', 0);
        if at < tail.len() {
            let ace = vstd::slice::slice_to_vec(vstd::slice::slice_subrange(tail, 0, at));
            aces.push(ace);
            assert(ace@ =~= tail@.take(at as int));
            assert(views(aces@) =~= before.push(ace@));
        }
        i += 1;
    }
    assert(tails.take(tails.len() as int) =~= tails);
    aces
}

proof fn lemma_split_not_empty(s: Seq<char>, sep: char)
    ensures
        split(s, sep).len() > 0,
    decreases s.len(),
{
    lemma_find(s, sep);
}

/// Reads the six fields of one entry.
fn parse_sddl_ace(ace: &[char]) -> (parsed: Option<Ace>)
    ensures
        match parsed {
            Some(entry) => parsed_ace(ace@) == Some(entry@),
            None => parsed_ace(ace@) is None,
        },
{
    let fields = split_chars(ace, ';');
    assert(views(fields@).len() == fields@.len());
    if fields.len() != 6 {
        return None;
    }
    let kind = vstd::slice::slice_to_vec(fields[0].as_slice());
    let rights = vstd::slice::slice_to_vec(fields[2].as_slice());
    let trustee = vstd::slice::slice_to_vec(fields[5].as_slice());
    Some(Ace { kind, rights, trustee })
}

fn sddl_rights_are_full_control(rights: &[char]) -> (full: bool)
    ensures
        full == full_control(rights@),
{
    upper_is(rights, "FA") || upper_is(rights, "GA") || upper_is(rights, "0X1F01FF") || upper_is(
        rights,
        "0X10000000",
    )
}

fn sddl_trustee_matches_sid(trustee: &[char], sid: &[char]) -> (matching: bool)
    ensures
        matching == trustee_is(trustee@, sid@),
{
    equals_ignoring_case(trustee, sid) || (upper_is(trustee, "SY") && upper_is(sid, "S-1-5-18"))
}

fn sddl_trustee_is_privileged_controller(trustee: &[char]) -> (privileged: bool)
    ensures
        privileged == privileged_controller(trustee@),
{
    upper_is(trustee, "SY") || upper_is(trustee, "BA") || upper_is(trustee, "LA")
}

fn sddl_trustee_is_broad(trustee: &[char]) -> (broad: bool)
    ensures
        broad == broad_trustee(trustee@),
{
    upper_is(trustee, "WD") || upper_is(trustee, "AU") || upper_is(trustee, "BU") || upper_is(
        trustee,
        "S-1-1-0",
    ) || upper_is(trustee, "S-1-5-11") || upper_is(trustee, "S-1-5-32-545")
}

/// More digits never make a smaller number.
proof fn lemma_hex_value_grows(digits: Seq<char>, n: int)
    requires
        0 <= n <= digits.len(),
    ensures
        hex_value(digits.take(n)) <= hex_value(digits),
    decreases digits.len() - n,
{
    if n == digits.len() {
        assert(digits.take(n) =~= digits);
    } else {
        lemma_hex_value_grows(digits, n + 1);
        assert(digits.take(n + 1).drop_last() =~= digits.take(n));
    }
}

fn hex_digit_value(c: char) -> (value: Option<u8>)
    ensures
        match value {
            Some(v) => hex_digit(c) == Some(v as nat) && v < 16,
            None => hex_digit(c) is None,
        },
{
    if '0' <= c && c <= '9' {
        Some(c as u8 - 48)
    } else if 'A' <= c && c <= 'F' {
        Some(c as u8 - 55)
    } else {
        None
    }
}

/// Reads a 32-bit hexadecimal mask in upper case.
fn parse_hex_mask(text: &[char]) -> (mask: Option<u32>)
    ensures
        mask == hex_mask(text@),
{
    let start: usize = if text.len() > 0 && text[0] == '+' {
        1
    } else {
        0
    };
    let digits = vstd::slice::slice_subrange(text, start, text.len());
    assert(start == 0 ==> digits@ =~= text@);
    assert(start == 1 ==> digits@ =~= text@.skip(1));
    if digits.len() == 0 {
        return None;
    }
    let mut value: u64 = 0;
    let mut i: usize = 0;
    assert(digits@.take(0) =~= Seq::<char>::empty());
    while i < digits.len()
        invariant
            i <= digits.len(),
            value <= u32::MAX,
            value == hex_value(digits@.take(i as int)),
            forall|k: int| 0 <= k < i ==> hex_digit(#[trigger] digits@[k]) is Some,
            start == 0 ==> digits@ == text@,
            start == 1 ==> digits@ == text@.skip(1),
            start == (if text@.len() > 0 && text@[0] == '+' {
                1int
            } else {
                0int
            }),
        decreases digits.len() - i,
    {
        assert(digits@.take(i + 1).drop_last() =~= digits@.take(i as int));
        match hex_digit_value(digits[i]) {
            Some(digit) => {
                value = value * 16 + digit as u64;
            },
            None => {
                return None;
            },
        }
        i += 1;
        if value > u32::MAX as u64 {
            proof {
                lemma_hex_value_grows(digits@, i as int);
            }
            return None;
        }
    }
    assert(digits@.take(digits@.len() as int) =~= digits@);
    Some(value as u32)
}

fn sddl_rights_can_modify(rights: &[char]) -> (modify: bool)
    ensures
        modify == can_modify(rights@),
{
    let upper = upper_chars(rights);
    if starts_with(upper.as_slice(), "0X") {
        proof {
            reveal_strlit("0X");
        }
        let hex = vstd::slice::slice_subrange(upper.as_slice(), 2, upper.len());
        assert(hex@ =~= upper@.skip(2));
        return match parse_hex_mask(hex) {
            Some(mask) => mask & MODIFY_MASK != 0,
            None => true,
        };
    }
    if upper.len() % 2 != 0 {
        return true;
    }
    let mut i: usize = 0;
    while i < upper.len() / 2
        invariant
            i <= upper.len() / 2,
            upper.len() % 2 == 0,
            upper@ == ascii_uppercase(rights@),
            !"0X"@.is_prefix_of(upper@),
            forall|k: int|
                0 <= k < i ==> read_only_right(#[trigger] upper@[2 * k], upper@[2 * k + 1]),
        decreases upper.len() / 2 - i,
    {
        let a: char = upper[2 * i];
        let b: char = upper[2 * i + 1];
        let read_only = (a == 'F' && (b == 'R' || b == 'X')) || (a == 'G' && (b == 'R' || b == 'X'))
            || (a == 'R' && (b == 'C' || b == 'P')) || (a == 'L' && (b == 'C' || b == 'O'));
        if !read_only {
            assert(!read_only_right(upper@[2 * i as int], upper@[2 * i as int + 1]));
            return true;
        }
        i += 1;
    }
    false
}

/// Classify a Windows DACL without calling Windows interfaces.
///
/// Existing parent directories may safely inherit their list, so protection is
/// checked separately from access. This classifier requires a grant of full
/// control to the current user or a privileged controller, rejects malformed
/// or unsupported entries, and rejects write-capable grants to broad groups.
/// Read and execute inheritance is allowed on parents.
pub fn sddl_is_user_private(sddl: &str, sid: &str) -> (private: bool)
    ensures
        private == user_private(sddl@, sid@),
{
    let chars = chars_of(sddl);
    let user = chars_of(sid);
    if user.len() == 0 || count_char(chars.as_slice(), '(') != count_char(chars.as_slice(), ')') {
        return false;
    }
    let aces = sddl_aces(chars.as_slice());
    let ghost texts = ace_texts(sddl@);
    assert(texts.len() == aces@.len());
    if aces.len() != count_char(chars.as_slice(), '(') {
        return false;
    }
    let mut grants_trusted_controller_full_control = false;
    let mut i: usize = 0;
    while i < aces.len()
        invariant
            i <= aces.len(),
            user@ == sid@,
            texts == ace_texts(sddl@),
            views(aces@) == texts,
            texts.len() == aces@.len(),
            texts.len() == count(sddl@, '('),
            forall|k: int| 0 <= k < i ==> acceptable_ace(#[trigger] texts[k]),
            grants_trusted_controller_full_control == exists|k: int|
                0 <= k < i && grants_control(#[trigger] texts[k], sid@),
        decreases aces.len() - i,
    {
        assert(aces@[i as int]@ == texts[i as int]);
        let parsed = parse_sddl_ace(aces[i].as_slice());
        match parsed {
            None => {
                return false;
            },
            Some(ace) => {
                if upper_is(ace.kind.as_slice(), "D") {
                    proof {
                        lemma_kinds_differ();
                    }
                } else {
                    if !upper_is(ace.kind.as_slice(), "A") {
                        return false;
                    }
                    if sddl_trustee_is_broad(ace.trustee.as_slice()) && sddl_rights_can_modify(
                        ace.rights.as_slice(),
                    ) {
                        return false;
                    }
                    if (sddl_trustee_matches_sid(ace.trustee.as_slice(), user.as_slice())
                        || sddl_trustee_is_privileged_controller(ace.trustee.as_slice()))
                        && sddl_rights_are_full_control(ace.rights.as_slice()) {
                        grants_trusted_controller_full_control = true;
                        assert(grants_control(texts[i as int], sid@));
                    }
                }
            },
        }
        i += 1;
    }
    grants_trusted_controller_full_control
}

/// An entry is not both a grant and a denial.
proof fn lemma_kinds_differ()
    ensures
        "A"@ != "D"@,
{
    reveal_strlit("A");
    reveal_strlit("D");
    assert("A"@[0] != "D"@[0]);
}

fn sddl_grants_full_control_to_sid(sddl: &[char], sid: &[char]) -> (granted: bool)
    ensures
        granted == exists|i: int|
            0 <= i < ace_texts(sddl@).len() && grants_user_control(
                #[trigger] ace_texts(sddl@)[i],
                sid@,
            ),
{
    let aces = sddl_aces(sddl);
    let ghost texts = ace_texts(sddl@);
    assert(texts.len() == aces@.len());
    let mut i: usize = 0;
    while i < aces.len()
        invariant
            i <= aces.len(),
            texts == ace_texts(sddl@),
            views(aces@) == texts,
            texts.len() == aces@.len(),
            forall|k: int| 0 <= k < i ==> !grants_user_control(#[trigger] texts[k], sid@),
        decreases aces.len() - i,
    {
        assert(aces@[i as int]@ == texts[i as int]);
        if let Some(ace) = parse_sddl_ace(aces[i].as_slice()) {
            if upper_is(ace.kind.as_slice(), "A") && sddl_trustee_matches_sid(
                ace.trustee.as_slice(),
                sid,
            ) && sddl_rights_are_full_control(ace.rights.as_slice()) {
                assert(grants_user_control(texts[i as int], sid@));
                return true;
            }
        }
        i += 1;
    }
    false
}

fn sddl_has_broad_allow_ace(sddl: &[char]) -> (broad: bool)
    ensures
        broad == exists|i: int|
            0 <= i < ace_texts(sddl@).len() && grants_broadly(#[trigger] ace_texts(sddl@)[i]),
{
    let aces = sddl_aces(sddl);
    let ghost texts = ace_texts(sddl@);
    assert(texts.len() == aces@.len());
    let mut i: usize = 0;
    while i < aces.len()
        invariant
            i <= aces.len(),
            texts == ace_texts(sddl@),
            views(aces@) == texts,
            texts.len() == aces@.len(),
            forall|k: int| 0 <= k < i ==> !grants_broadly(#[trigger] texts[k]),
        decreases aces.len() - i,
    {
        assert(aces@[i as int]@ == texts[i as int]);
        if let Some(ace) = parse_sddl_ace(aces[i].as_slice()) {
            if upper_is(ace.kind.as_slice(), "A") && sddl_trustee_is_broad(
                ace.trustee.as_slice(),
            ) {
                assert(grants_broadly(texts[i as int]));
                return true;
            }
        }
        i += 1;
    }
    false
}

fn sddl_is_exclusive_user_private(sddl: &str, sid: &str) -> (exclusive: bool)
    ensures
        exclusive == exclusive_user_private(sddl@, sid@),
{
    let chars = chars_of(sddl);
    let user = chars_of(sid);
    sddl_is_user_private(sddl, sid) && sddl_grants_full_control_to_sid(
        chars.as_slice(),
        user.as_slice(),
    ) && !sddl_has_broad_allow_ace(chars.as_slice())
}

fn sddl_has_protected_dacl(sddl: &str) -> (protected: bool)
    ensures
        protected == protected_dacl(sddl@),
{
    let chars = chars_of(sddl);
    let upper = upper_chars(chars.as_slice());
    contains(upper.as_slice(), "D:P(") || contains(upper.as_slice(), "D:PAI(") || starts_with(
        upper.as_slice(),
        "D:P",
    )
}

/// Whether the list is protected and gives control to this user alone.
///
/// This classifies the text by itself; where the descriptor's control bits are
/// at hand they say whether the list is protected.
pub fn sddl_is_protected_user_private(sddl: &str, sid: &str) -> (private: bool)
    ensures
        private == protected_user_private(sddl@, sid@),
{
    sddl_has_protected_dacl(sddl) && sddl_is_exclusive_user_private(sddl, sid)
}

/// The entries of a DACL, from its first parenthesis on.
fn find_ace_section(sddl: &[char]) -> (section: Option<Vec<char>>)
    ensures
        match section {
            Some(aces) => ace_section(sddl@) == Some(aces@),
            None => ace_section(sddl@) is None,
        },
{
    assert(sddl@.skip(0) =~= sddl@);
    let at: usize = find_char(sddl, '(', 0);
    if at == sddl.len() {
        return None;
    }
    let header = vstd::slice::slice_subrange(sddl, 0, at);
    assert(header@ =~= sddl@.take(at as int));
    let upper = upper_chars(header);
    if !starts_with(upper.as_slice(), "D:") {
        return None;
    }
    let aces = vstd::slice::slice_to_vec(vstd::slice::slice_subrange(sddl, at, sddl.len()));
    assert(aces@ =~= sddl@.skip(at as int));
    Some(aces)
}

/// Compare two DACLs by their entries alone, ignoring control flags.
pub fn sddl_has_same_dacl_aces(actual: &str, expected: &str) -> (same: bool)
    ensures
        same == same_dacl_aces(actual@, expected@),
{
    let left = chars_of(actual);
    let right = chars_of(expected);
    match (find_ace_section(left.as_slice()), find_ace_section(right.as_slice())) {
        (Some(a), Some(b)) => equals_ignoring_case(a.as_slice(), b.as_slice()),
        _ => false,
    }
}

/// A text without the separator is its own only piece.
proof fn lemma_split_single(a: Seq<char>, sep: char)
    requires
        !a.contains(sep),
    ensures
        split(a, sep) == seq![a],
{
    lemma_find(a, sep);
}

/// A piece, a separator and a rest split into the piece and the pieces of the rest.
proof fn lemma_split_cons(a: Seq<char>, sep: char, b: Seq<char>)
    requires
        !a.contains(sep),
    ensures
        split(a + seq![sep] + b, sep) == seq![a] + split(b, sep),
{
    let s = a + seq![sep] + b;
    assert forall|i: int| 0 <= i < a.len() implies s[i] != sep by {
        assert(a.contains(a[i]));
    }
    lemma_find_is(s, sep, a.len() as int);
    assert(s.take(a.len() as int) =~= a);
    assert(s.skip(a.len() as int + 1) =~= b);
}

proof fn lemma_count_concat(a: Seq<char>, b: Seq<char>, x: char)
    ensures
        count(a + b, x) == count(a, x) + count(b, x),
    decreases b.len(),
{
    if b.len() == 0 {
        assert(a + b =~= a);
    } else {
        lemma_count_concat(a, b.drop_last(), x);
        assert((a + b).drop_last() =~= a + b.drop_last());
    }
}

proof fn lemma_count_absent(a: Seq<char>, x: char)
    requires
        !a.contains(x),
    ensures
        count(a, x) == 0,
    decreases a.len(),
{
    if a.len() > 0 {
        assert(a.contains(a[a.len() - 1]));
        assert forall|c: char| a.drop_last().contains(c) implies a.contains(c) by {
            let i = choose|i: int| 0 <= i < a.drop_last().len() && a.drop_last()[i] == c;
            assert(a[i] == c);
        }
        lemma_count_absent(a.drop_last(), x);
    }
}

/// Text that can name a trustee: not empty, without entry delimiters.
pub open spec fn sid_text(sid: Seq<char>) -> bool {
    sid.len() > 0 && !sid.contains('(') && !sid.contains(')') && !sid.contains(';')
}

/// The only entry of the private list grants full access to the user.
proof fn lemma_private_entry(sid: Seq<char>)
    requires
        sid_text(sid),
    ensures
        ace_texts(private_sddl_text(sid)) == seq!["A;;FA;;;"@ + sid],
        parsed_ace("A;;FA;;;"@ + sid) == Some(
            (AceView { kind: "A"@, rights: "FA"@, trustee: sid }),
        ),
{
    reveal_strlit("D:P(A;;FA;;;");
    reveal_strlit(")");
    reveal_strlit("A;;FA;;;");
    reveal_strlit("A");
    reveal_strlit("FA");
    let text = private_sddl_text(sid);
    let header = seq!['D', ':', 'P'];
    let entry = "A;;FA;;;"@ + sid;
    let rest = entry + seq![')'];
    assert(text =~= header + seq!['('] + rest);
    assert forall|i: int| 0 <= i < rest.len() implies rest[i] != '(' by {
        if 8 <= i < 8 + sid.len() {
            assert(sid.contains(sid[i - 8]));
        }
    }
    lemma_split_cons(header, '(', rest);
    lemma_split_single(rest, '(');
    let tails = split(text, '(').skip(1);
    assert(tails =~= seq![rest]);
    assert forall|i: int| 0 <= i < entry.len() implies rest[i] != ')' by {
        if 8 <= i {
            assert(sid.contains(sid[i - 8]));
        }
    }
    lemma_find_is(rest, ')', entry.len() as int);
    assert(rest.take(entry.len() as int) =~= entry);
    assert(tails.drop_last() =~= Seq::<Seq<char>>::empty());
    reveal_with_fuel(closed_prefixes, 2);
    assert(closed_prefixes(tails) =~= seq![entry]);

    let none = Seq::<char>::empty();
    lemma_split_single(sid, ';');
    assert(seq![';'] + sid =~= none + seq![';'] + sid);
    lemma_split_cons(none, ';', sid);
    let after_object = seq![';'] + sid;
    assert(seq![';'] + after_object =~= none + seq![';'] + after_object);
    lemma_split_cons(none, ';', after_object);
    let after_rights = seq![';'] + after_object;
    lemma_split_cons("FA"@, ';', after_rights);
    let after_flags = "FA"@ + seq![';'] + after_rights;
    assert(seq![';'] + after_flags =~= none + seq![';'] + after_flags);
    lemma_split_cons(none, ';', after_flags);
    let after_kind = seq![';'] + after_flags;
    lemma_split_cons("A"@, ';', after_kind);
    assert(entry =~= "A"@ + seq![';'] + after_kind);
    assert(split(entry, ';') =~= seq!["A"@, none, "FA"@, none, none, sid]);
}

/// The list that is written for a user is accepted for that user, as private
/// and as protected. A broad group is no user: its list is refused.
pub proof fn law_private_sddl_is_private(sid: Seq<char>)
    requires
        sid_text(sid),
    ensures
        user_private(private_sddl_text(sid), sid) <==> !broad_trustee(sid),
        protected_user_private(private_sddl_text(sid), sid) <==> !broad_trustee(sid),
{
    let text = private_sddl_text(sid);
    let entry = "A;;FA;;;"@ + sid;
    let aces = ace_texts(text);
    lemma_private_entry(sid);
    lemma_kinds_differ();
    assert(aces[0] == entry);
    assert(ascii_uppercase("A"@) =~= "A"@) by {
        reveal_strlit("A");
    }
    assert(ascii_uppercase("FA"@) =~= "FA"@ && can_modify("FA"@)) by {
        reveal_strlit("FA");
        reveal_strlit("0X");
        let upper = ascii_uppercase("FA"@);
        assert(upper =~= "FA"@);
        assert(upper[0] == 'F' && "0X"@[0] == '0');
        assert(!read_only_right(upper[2 * 0int], upper[2 * 0int + 1]));
    }
    assert(count(text, '(') == 1 && count(text, ')') == 1) by {
        reveal_strlit("D:P(A;;FA;;;");
        reveal_strlit(")");
        reveal_with_fuel(count, 2);
        let left = "D:P(A;;FA;;;"@;
        let right = ")"@;
        lemma_count_concat(left + sid, right, '(');
        lemma_count_concat(left + sid, right, ')');
        lemma_count_concat(left, sid, '(');
        lemma_count_concat(left, sid, ')');
        lemma_count_absent(sid, '(');
        lemma_count_absent(sid, ')');
        lemma_count_absent(left, ')');
        assert(left =~= seq!['D', ':', 'P'] + seq!['('] + left.skip(4));
        lemma_count_concat(seq!['D', ':', 'P'] + seq!['('], left.skip(4), '(');
        lemma_count_concat(seq!['D', ':', 'P'], seq!['('], '(');
        lemma_count_absent(seq!['D', ':', 'P'], '(');
        lemma_count_absent(left.skip(4), '(');
        assert(seq!['('].drop_last() =~= Seq::<char>::empty());
        assert(count(seq!['('], '(') == 1);
        lemma_count_absent(right, '(');
        assert(right.drop_last() =~= Seq::<char>::empty());
        assert(count(right, ')') == 1);
    }
    assert(protected_dacl(text)) by {
        reveal_strlit("D:P(A;;FA;;;");
        reveal_strlit("D:P");
        assert("D:P"@.is_prefix_of(ascii_uppercase(text)));
    }
    assert(same_ignoring_case(sid, sid));
    if !broad_trustee(sid) {
        assert(acceptable_ace(entry));
        assert(grants_control(aces[0], sid));
        assert(grants_user_control(aces[0], sid));
        assert(!grants_broadly(entry));
    } else {
        assert(!acceptable_ace(aces[0]));
    }
}

/// Whatever is accepted as protected and exclusive is private as well.
pub proof fn law_protected_is_private(sddl: Seq<char>, sid: Seq<char>)
    requires
        protected_user_private(sddl, sid),
    ensures
        user_private(sddl, sid),
{
}

/// A list with an entry that lets a broad group modify the object is refused,
/// whatever else it grants.
pub proof fn law_broad_write_is_refused(sddl: Seq<char>, sid: Seq<char>, i: int, ace: AceView)
    requires
        0 <= i < ace_texts(sddl).len(),
        parsed_ace(ace_texts(sddl)[i]) == Some(ace),
        is_allow(ace),
        broad_trustee(ace.trustee),
        can_modify(ace.rights),
    ensures
        !user_private(sddl, sid),
{
    lemma_kinds_differ();
    assert(!acceptable_ace(ace_texts(sddl)[i]));
}

/// A list with an entry that does not have six fields, or that is neither a
/// grant nor a denial, is refused.
pub proof fn law_malformed_entry_is_refused(sddl: Seq<char>, sid: Seq<char>, i: int)
    requires
        0 <= i < ace_texts(sddl).len(),
        match parsed_ace(ace_texts(sddl)[i]) {
            Some(ace) => !is_allow(ace) && !is_deny(ace),
            None => true,
        },
    ensures
        !user_private(sddl, sid),
{
    assert(!acceptable_ace(ace_texts(sddl)[i]));
}

/// A list with an entry that is opened and not closed is refused, whatever else
/// it holds.
pub proof fn law_unclosed_entry_is_refused(sddl: Seq<char>, sid: Seq<char>, i: int)
    requires
        0 < i < split(sddl, '(').len(),
        !split(sddl, '(')[i].contains(')'),
    ensures
        !user_private(sddl, sid),
{
    let tails = split(sddl, '(').skip(1);
    lemma_split_len(sddl, '(');
    assert(tails[i - 1] == split(sddl, '(')[i]);
    lemma_unclosed_is_dropped(tails, i - 1);
}

/// There is one piece more than there are separators.
proof fn lemma_split_len(s: Seq<char>, sep: char)
    ensures
        split(s, sep).len() == count(s, sep) + 1,
    decreases s.len(),
{
    let at = find(s, sep);
    lemma_find(s, sep);
    if at < s.len() {
        let rest = s.skip(at + 1);
        lemma_split_len(rest, sep);
        assert(s =~= s.take(at) + seq![sep] + rest);
        lemma_count_concat(s.take(at) + seq![sep], rest, sep);
        lemma_count_concat(s.take(at), seq![sep], sep);
        lemma_count_absent(s.take(at), sep);
        reveal_with_fuel(count, 2);
        assert(seq![sep].drop_last() =~= Seq::<char>::empty());
    } else {
        lemma_count_absent(s, sep);
    }
}

/// No more prefixes come out than pieces went in, and fewer where a piece is
/// not closed.
proof fn lemma_unclosed_is_dropped(tails: Seq<Seq<char>>, i: int)
    ensures
        closed_prefixes(tails).len() <= tails.len(),
        0 <= i < tails.len() && !tails[i].contains(')') ==> closed_prefixes(tails).len()
            < tails.len(),
    decreases tails.len(),
{
    if tails.len() > 0 {
        lemma_unclosed_is_dropped(tails.drop_last(), i);
        lemma_find(tails.last(), ')');
    }
}

/// Control flags in the header do not take part in the comparison of entries.
pub proof fn law_comparison_ignores_control_flags(
    header: Seq<char>,
    other_header: Seq<char>,
    entries: Seq<char>,
)
    requires
        "D:"@.is_prefix_of(ascii_uppercase(header)),
        "D:"@.is_prefix_of(ascii_uppercase(other_header)),
        !header.contains('('),
        !other_header.contains('('),
        entries.len() > 0,
        entries[0] == '(',
    ensures
        same_dacl_aces(header + entries, other_header + entries),
{
    lemma_section(header, entries);
    lemma_section(other_header, entries);
}

proof fn lemma_section(header: Seq<char>, entries: Seq<char>)
    requires
        "D:"@.is_prefix_of(ascii_uppercase(header)),
        !header.contains('('),
        entries.len() > 0,
        entries[0] == '(',
    ensures
        ace_section(header + entries) == Some(entries),
{
    let sddl = header + entries;
    assert forall|i: int| 0 <= i < header.len() implies sddl[i] != '(' by {
        assert(header.contains(header[i]));
    }
    lemma_find_is(sddl, '(', header.len() as int);
    assert(sddl.take(header.len() as int) =~= header);
    assert(sddl.skip(header.len() as int) =~= entries);
}

/// Entries, each in parentheses, one behind the other.
pub open spec fn listed(entries: Seq<Seq<char>>) -> Seq<char>
    decreases entries.len(),
{
    if entries.len() == 0 {
        Seq::empty()
    } else {
        seq!['('] + (entries[0] + seq![')']) + listed(entries.skip(1))
    }
}

/// Six fields with semicolons between them.
pub open spec fn entry_text(
    kind: Seq<char>,
    flags: Seq<char>,
    rights: Seq<char>,
    object: Seq<char>,
    inherited: Seq<char>,
    trustee: Seq<char>,
) -> Seq<char> {
    kind + seq![';'] + (flags + seq![';'] + (rights + seq![';'] + (object + seq![';'] + (inherited
        + seq![';'] + trustee))))
}

/// A header and listed entries split into the header and the closed entries.
proof fn lemma_listed_splits(header: Seq<char>, entries: Seq<Seq<char>>)
    requires
        !header.contains('('),
        forall|i: int| 0 <= i < entries.len() ==> !(#[trigger] entries[i]).contains('('),
    ensures
        split(header + listed(entries), '(') == seq![header] + entries.map_values(
            |entry: Seq<char>| entry + seq![')'],
        ),
    decreases entries.len(),
{
    let closed = |entry: Seq<char>| entry + seq![')'];
    if entries.len() == 0 {
        assert(header + listed(entries) =~= header);
        lemma_split_single(header, '(');
        assert(entries.map_values(closed) =~= Seq::empty());
        assert(seq![header] + entries.map_values(closed) =~= seq![header]);
    } else {
        let first = entries[0] + seq![')'];
        let rest = entries.skip(1);
        assert forall|i: int| 0 <= i < rest.len() implies !(#[trigger] rest[i]).contains('(') by {
            assert(rest[i] == entries[i + 1]);
        }
        assert(!first.contains('(')) by {
            if first.contains('(') {
                let i = choose|i: int| 0 <= i < first.len() && first[i] == '(';
                assert(entries[0].contains(entries[0][i]));
            }
        }
        assert(header + listed(entries) =~= header + seq!['('] + (first + listed(rest)));
        lemma_split_cons(header, '(', first + listed(rest));
        lemma_listed_splits(first, rest);
        assert(entries.map_values(closed) =~= seq![first] + rest.map_values(closed));
    }
}

/// Closed entries lose their parenthesis again.
proof fn lemma_closed_entries(entries: Seq<Seq<char>>)
    requires
        forall|i: int| 0 <= i < entries.len() ==> !(#[trigger] entries[i]).contains(')'),
    ensures
        closed_prefixes(entries.map_values(|entry: Seq<char>| entry + seq![')'])) == entries,
    decreases entries.len(),
{
    let closed = |entry: Seq<char>| entry + seq![')'];
    let tails = entries.map_values(closed);
    if entries.len() == 0 {
        assert(closed_prefixes(tails) =~= entries);
    } else {
        let before = entries.drop_last();
        assert forall|i: int| 0 <= i < before.len() implies !(#[trigger] before[i]).contains(
            ')',
        ) by {
            assert(before[i] == entries[i]);
        }
        lemma_closed_entries(before);
        assert(tails.drop_last() =~= before.map_values(closed));
        let last = entries.last();
        assert(last == entries[entries.len() - 1]);
        assert(tails.last() == last + seq![')']);
        assert forall|i: int| 0 <= i < last.len() implies tails.last()[i] != ')' by {
            assert(last.contains(last[i]));
        }
        lemma_find_is(tails.last(), ')', last.len() as int);
        assert(tails.last().take(last.len() as int) =~= last);
        assert(before.push(last) =~= entries);
    }
}

proof fn lemma_listed_counts(entries: Seq<Seq<char>>)
    requires
        forall|i: int|
            0 <= i < entries.len() ==> !(#[trigger] entries[i]).contains('(')
                && !entries[i].contains(')'),
    ensures
        count(listed(entries), '(') == entries.len(),
        count(listed(entries), ')') == entries.len(),
    decreases entries.len(),
{
    if entries.len() > 0 {
        let rest = entries.skip(1);
        assert forall|i: int| 0 <= i < rest.len() implies !(#[trigger] rest[i]).contains('(')
            && !rest[i].contains(')') by {
            assert(rest[i] == entries[i + 1]);
        }
        lemma_listed_counts(rest);
        let left = seq!['('];
        let right = seq![')'];
        let first = entries[0] + right;
        lemma_count_concat(left + first, listed(rest), '(');
        lemma_count_concat(left + first, listed(rest), ')');
        lemma_count_concat(left, first, '(');
        lemma_count_concat(left, first, ')');
        lemma_count_concat(entries[0], right, '(');
        lemma_count_concat(entries[0], right, ')');
        lemma_count_absent(entries[0], '(');
        lemma_count_absent(entries[0], ')');
        reveal_with_fuel(count, 2);
        assert(left.drop_last() =~= Seq::<char>::empty());
        assert(right.drop_last() =~= Seq::<char>::empty());
    }
}

/// The entries that a list is written with are the entries that are read from
/// it, in their order.
pub proof fn law_entries_read_back(header: Seq<char>, entries: Seq<Seq<char>>)
    requires
        !header.contains('('),
        forall|i: int|
            0 <= i < entries.len() ==> !(#[trigger] entries[i]).contains('(')
                && !entries[i].contains(')'),
    ensures
        ace_texts(header + listed(entries)) == entries,
{
    lemma_listed_splits(header, entries);
    let tails = entries.map_values(|entry: Seq<char>| entry + seq![')']);
    assert(split(header + listed(entries), '(').skip(1) =~= tails);
    lemma_closed_entries(entries);
}

/// The type, the rights and the trustee are the first, the third and the sixth
/// field of an entry.
pub proof fn law_fields_read_back(
    kind: Seq<char>,
    flags: Seq<char>,
    rights: Seq<char>,
    object: Seq<char>,
    inherited: Seq<char>,
    trustee: Seq<char>,
)
    requires
        !kind.contains(';'),
        !flags.contains(';'),
        !rights.contains(';'),
        !object.contains(';'),
        !inherited.contains(';'),
        !trustee.contains(';'),
    ensures
        parsed_ace(entry_text(kind, flags, rights, object, inherited, trustee)) == Some(
            (AceView { kind, rights, trustee }),
        ),
{
    let after_object = inherited + seq![';'] + trustee;
    let after_rights = object + seq![';'] + after_object;
    let after_flags = rights + seq![';'] + after_rights;
    let after_kind = flags + seq![';'] + after_flags;
    lemma_split_single(trustee, ';');
    lemma_split_cons(inherited, ';', trustee);
    lemma_split_cons(object, ';', after_object);
    lemma_split_cons(rights, ';', after_rights);
    lemma_split_cons(flags, ';', after_flags);
    lemma_split_cons(kind, ';', after_kind);
    let fields = split(entry_text(kind, flags, rights, object, inherited, trustee), ';');
    assert(fields =~= seq![kind, flags, rights, object, inherited, trustee]);
}

/// A text is an entry exactly where it has five semicolons.
pub proof fn law_entries_have_six_fields(text: Seq<char>)
    ensures
        parsed_ace(text) is Some <==> count(text, ';') == 5,
{
    lemma_split_len(text, ';');
}

/// The two letters that a grant and a denial are told by, in either case.
proof fn lemma_kind_letters(kind: Seq<char>, ace: AceView)
    requires
        ace.kind == kind,
    ensures
        is_allow(ace) <==> kind == seq!['A'] || kind == seq!['a'],
        is_deny(ace) <==> kind == seq!['D'] || kind == seq!['d'],
{
    reveal_strlit("A");
    reveal_strlit("D");
    let upper = ascii_uppercase(kind);
    if kind.len() == 1 {
        assert(upper[0] == ascii_upper(kind[0]));
        assert(kind =~= seq![kind[0]]);
        assert(upper =~= seq![upper[0]]);
        assert("A"@ =~= seq!['A']);
        assert("D"@ =~= seq!['D']);
        if kind == seq!['A'] {
            assert(kind[0] == 'A');
        }
        if kind == seq!['a'] {
            assert(kind[0] == 'a');
        }
        if kind == seq!['D'] {
            assert(kind[0] == 'D');
        }
        if kind == seq!['d'] {
            assert(kind[0] == 'd');
        }
        if upper == "A"@ {
            assert(upper[0] == 'A');
        }
        if upper == "D"@ {
            assert(upper[0] == 'D');
        }
    } else {
        assert(upper.len() != 1);
    }
}

/// A denial is always acceptable. A grant is acceptable unless it lets a broad
/// group modify the object. An entry of any other type is not.
pub proof fn law_acceptable_entries(
    kind: Seq<char>,
    flags: Seq<char>,
    rights: Seq<char>,
    object: Seq<char>,
    inherited: Seq<char>,
    trustee: Seq<char>,
)
    requires
        !kind.contains(';'),
        !flags.contains(';'),
        !rights.contains(';'),
        !object.contains(';'),
        !inherited.contains(';'),
        !trustee.contains(';'),
    ensures
        ({
            let entry = entry_text(kind, flags, rights, object, inherited, trustee);
            &&& kind == seq!['D'] || kind == seq!['d'] ==> acceptable_ace(entry)
            &&& kind == seq!['A'] || kind == seq!['a'] ==> (acceptable_ace(entry)
                <==> !broad_trustee(trustee) || !can_modify(rights))
            &&& kind != seq!['A'] && kind != seq!['a'] && kind != seq!['D'] && kind != seq!['d']
                ==> !acceptable_ace(entry)
        }),
{
    law_fields_read_back(kind, flags, rights, object, inherited, trustee);
    lemma_kind_letters(kind, (AceView { kind, rights, trustee }));
    assert(seq!['A'][0] != seq!['D'][0] && seq!['A'][0] != seq!['d'][0]);
    assert(seq!['a'][0] != seq!['D'][0] && seq!['a'][0] != seq!['d'][0]);
}

/// Only grants give control: to the user or a privileged controller with full
/// rights. A grant of any rights to a broad group is a broad one.
pub proof fn law_granting_entries(
    kind: Seq<char>,
    flags: Seq<char>,
    rights: Seq<char>,
    object: Seq<char>,
    inherited: Seq<char>,
    trustee: Seq<char>,
    sid: Seq<char>,
)
    requires
        !kind.contains(';'),
        !flags.contains(';'),
        !rights.contains(';'),
        !object.contains(';'),
        !inherited.contains(';'),
        !trustee.contains(';'),
    ensures
        ({
            let entry = entry_text(kind, flags, rights, object, inherited, trustee);
            let grant = kind == seq!['A'] || kind == seq!['a'];
            &&& grants_user_control(entry, sid) <==> grant && trustee_is(trustee, sid)
                && full_control(rights)
            &&& grants_control(entry, sid) <==> grant && full_control(rights) && (trustee_is(
                trustee,
                sid,
            ) || privileged_controller(trustee))
            &&& grants_broadly(entry) <==> grant && broad_trustee(trustee)
        }),
{
    law_fields_read_back(kind, flags, rights, object, inherited, trustee);
    lemma_kind_letters(kind, (AceView { kind, rights, trustee }));
}

/// A written list is private to a user exactly where the user has a name, every
/// entry is acceptable and one entry at least gives control.
pub proof fn law_written_lists_are_judged_by_their_entries(
    header: Seq<char>,
    entries: Seq<Seq<char>>,
    sid: Seq<char>,
)
    requires
        !header.contains('('),
        !header.contains(')'),
        forall|i: int|
            0 <= i < entries.len() ==> !(#[trigger] entries[i]).contains('(')
                && !entries[i].contains(')'),
    ensures
        user_private(header + listed(entries), sid) <==> sid.len() > 0 && (forall|i: int|
            0 <= i < entries.len() ==> acceptable_ace(#[trigger] entries[i])) && (exists|i: int|
            0 <= i < entries.len() && grants_control(#[trigger] entries[i], sid)),
        exclusive_user_private(header + listed(entries), sid) <==> user_private(
            header + listed(entries),
            sid,
        ) && (exists|i: int|
            0 <= i < entries.len() && grants_user_control(#[trigger] entries[i], sid)) && (forall|
            i: int,
        |
            0 <= i < entries.len() ==> !grants_broadly(#[trigger] entries[i])),
{
    let text = header + listed(entries);
    law_entries_read_back(header, entries);
    lemma_listed_counts(entries);
    lemma_count_concat(header, listed(entries), '(');
    lemma_count_concat(header, listed(entries), ')');
    lemma_count_absent(header, '(');
    lemma_count_absent(header, ')');
    assert(count(text, '(') == entries.len());
}

/// The groups that are too broad: everyone, authenticated users and built-in
/// users, by their aliases or their identifiers, in either case of the letters.
pub proof fn law_broad_groups(trustee: Seq<char>)
    ensures
        broad_trustee(trustee) <==> {
            let upper = ascii_uppercase(trustee);
            ||| upper == seq!['W', 'D']
            ||| upper == seq!['A', 'U']
            ||| upper == seq!['B', 'U']
            ||| upper == seq!['S', '-', '1', '-', '1', '-', '0']
            ||| upper == seq!['S', '-', '1', '-', '5', '-', '1', '1']
            ||| upper == seq!['S', '-', '1', '-', '5', '-', '3', '2', '-', '5', '4', '5']
        },
{
    reveal_strlit("WD");
    reveal_strlit("AU");
    reveal_strlit("BU");
    reveal_strlit("S-1-1-0");
    reveal_strlit("S-1-5-11");
    reveal_strlit("S-1-5-32-545");
    assert("WD"@ =~= seq!['W', 'D']);
    assert("AU"@ =~= seq!['A', 'U']);
    assert("BU"@ =~= seq!['B', 'U']);
    assert("S-1-1-0"@ =~= seq!['S', '-', '1', '-', '1', '-', '0']);
    assert("S-1-5-11"@ =~= seq!['S', '-', '1', '-', '5', '-', '1', '1']);
    assert("S-1-5-32-545"@ =~= seq!['S', '-', '1', '-', '5', '-', '3', '2', '-', '5', '4', '5']);
}

/// The controllers that may have control beside the user: the system, the
/// administrators and the administrator.
pub proof fn law_privileged_controllers(trustee: Seq<char>)
    ensures
        privileged_controller(trustee) <==> {
            let upper = ascii_uppercase(trustee);
            upper == seq!['S', 'Y'] || upper == seq!['B', 'A'] || upper == seq!['L', 'A']
        },
{
    reveal_strlit("SY");
    reveal_strlit("BA");
    reveal_strlit("LA");
    assert("SY"@ =~= seq!['S', 'Y']);
    assert("BA"@ =~= seq!['B', 'A']);
    assert("LA"@ =~= seq!['L', 'A']);
}

/// A trustee is the user where both are the same text up to the case of the
/// letters; the system is also known by its alias.
pub proof fn law_users_are_told_by_their_identifier(trustee: Seq<char>, sid: Seq<char>)
    ensures
        same_ignoring_case(trustee, sid) ==> trustee_is(trustee, sid),
        !same_ignoring_case(trustee, sid) ==> (trustee_is(trustee, sid) <==> ascii_uppercase(
            trustee,
        ) == seq!['S', 'Y'] && ascii_uppercase(sid) == seq![
            'S',
            '-',
            '1',
            '-',
            '5',
            '-',
            '1',
            '8',
        ]),
{
    reveal_strlit("SY");
    reveal_strlit("S-1-5-18");
    assert("SY"@ =~= seq!['S', 'Y']);
    assert("S-1-5-18"@ =~= seq!['S', '-', '1', '-', '5', '-', '1', '8']);
}

/// The rights that are full control: by letters, and as the two masks of full
/// file access and of generic access.
pub proof fn law_full_control_rights(rights: Seq<char>)
    ensures
        full_control(rights) <==> {
            let upper = ascii_uppercase(rights);
            ||| upper == seq!['F', 'A']
            ||| upper == seq!['G', 'A']
            ||| upper == seq!['0', 'X', '1', 'F', '0', '1', 'F', 'F']
            ||| upper == seq!['0', 'X', '1', '0', '0', '0', '0', '0', '0', '0']
        },
{
    reveal_strlit("FA");
    reveal_strlit("GA");
    reveal_strlit("0X1F01FF");
    reveal_strlit("0X10000000");
    assert("FA"@ =~= seq!['F', 'A']);
    assert("GA"@ =~= seq!['G', 'A']);
    assert("0X1F01FF"@ =~= seq!['0', 'X', '1', 'F', '0', '1', 'F', 'F']);
    assert("0X10000000"@ =~= seq!['0', 'X', '1', '0', '0', '0', '0', '0', '0', '0']);
}

/// The sixteen hexadecimal digits in upper case.
pub open spec fn hex_digits() -> Seq<char> {
    seq!['0', '1', '2', '3', '4', '5', '6', '7', '8', '9', 'A', 'B', 'C', 'D', 'E', 'F']
}

/// Hexadecimal rendering of a number.
pub open spec fn hex_text(n: nat) -> Seq<char>
    decreases n,
{
    if n < 16 {
        seq![hex_digits()[n as int]]
    } else {
        hex_text(n / 16).push(hex_digits()[(n % 16) as int])
    }
}

proof fn lemma_hex_push(digits: Seq<char>, d: nat)
    requires
        d < 16,
    ensures
        hex_digit(hex_digits()[d as int]) == Some(d),
        hex_value(digits.push(hex_digits()[d as int])) == hex_value(digits) * 16 + d,
{
    assert(digits.push(hex_digits()[d as int]).drop_last() =~= digits);
}

/// The rendering has hexadecimal digits only and reads back; upper case leaves
/// it as it is.
proof fn lemma_hex_text(n: nat)
    ensures
        hex_text(n).len() > 0,
        all_hex(hex_text(n)),
        hex_value(hex_text(n)) == n,
        hex_text(n)[0] != '+',
        ascii_uppercase(hex_text(n)) == hex_text(n),
    decreases n,
{
    let text = hex_text(n);
    if n < 16 {
        let none = Seq::<char>::empty();
        lemma_hex_push(none, n);
        assert(text =~= none.push(hex_digits()[n as int]));
        assert(hex_value(none) == 0);
    } else {
        let shorter = hex_text(n / 16);
        lemma_hex_text(n / 16);
        lemma_hex_push(shorter, n % 16);
        assert forall|i: int| 0 <= i < text.len() implies hex_digit(#[trigger] text[i]) is Some by {
            if i < shorter.len() {
                assert(text[i] == shorter[i]);
            }
        }
        assert(text[0] == shorter[0]);
    }
    assert(ascii_uppercase(text) =~= text) by {
        assert forall|i: int| 0 <= i < text.len() implies ascii_upper(#[trigger] text[i])
            == text[i] by {
            assert(hex_digit(text[i]) is Some);
        }
    }
}

/// A mask that is written in hexadecimal is read back, with a plus sign in
/// front or without; a number that does not fit in 32 bits is no mask.
pub proof fn law_masks_read_back(n: nat)
    ensures
        n <= u32::MAX ==> hex_mask(hex_text(n)) == Some(n as u32),
        n <= u32::MAX ==> hex_mask(seq!['+'] + hex_text(n)) == Some(n as u32),
        n > u32::MAX ==> hex_mask(hex_text(n)) is None,
        n > u32::MAX ==> hex_mask(seq!['+'] + hex_text(n)) is None,
{
    lemma_hex_text(n);
    let signed = seq!['+'] + hex_text(n);
    assert(signed.skip(1) =~= hex_text(n));
}

/// Zeros in front do not change what a mask is.
pub proof fn law_leading_zeros_do_not_count(digits: Seq<char>)
    requires
        digits.len() > 0,
        digits[0] != '+',
    ensures
        hex_mask(seq!['0'] + digits) == hex_mask(digits),
{
    let longer = seq!['0'] + digits;
    lemma_leading_zero(digits);
    if all_hex(digits) {
        assert forall|i: int| 0 <= i < longer.len() implies hex_digit(#[trigger] longer[i])
            is Some by {
            if i > 0 {
                assert(longer[i] == digits[i - 1]);
            }
        }
    } else {
        let i = choose|i: int| 0 <= i < digits.len() && hex_digit(#[trigger] digits[i]) is None;
        assert(longer[i + 1] == digits[i]);
        assert(!all_hex(longer));
    }
}

proof fn lemma_leading_zero(digits: Seq<char>)
    ensures
        hex_value(seq!['0'] + digits) == hex_value(digits),
    decreases digits.len(),
{
    let longer = seq!['0'] + digits;
    if digits.len() == 0 {
        let none = Seq::<char>::empty();
        lemma_hex_push(none, 0);
        assert(longer =~= none.push(hex_digits()[0]));
        assert(hex_value(none) == 0);
        assert(hex_value(digits) == 0);
    } else {
        lemma_leading_zero(digits.drop_last());
        assert(longer.drop_last() =~= seq!['0'] + digits.drop_last());
        assert(longer.last() == digits.last());
    }
}

/// A text without digits, or with any character that is no digit, is no mask.
pub proof fn law_other_texts_are_no_masks(text: Seq<char>, i: int)
    requires
        text.len() == 0 || text == seq!['+'] || (0 <= i < text.len() && !hex_digits().contains(
            text[i],
        ) && (i > 0 || text[i] != '+')),
    ensures
        hex_mask(text) is None,
{
    if text == seq!['+'] {
        assert(text.skip(1).len() == 0);
    } else if text.len() > 0 {
        let c = text[i];
        assert(hex_digit(c) is None) by {
            if let Some(d) = hex_digit(c) {
                assert(d < 16);
                assert(hex_digits()[d as int] == c);
            }
        }
        if text[0] == '+' {
            assert(text.skip(1)[i - 1] == c);
        }
    }
}

/// A mask modifies exactly where it has one of the bits that write, append,
/// write extended attributes, delete children, write attributes, delete, change
/// permissions, change the owner, or grant all or write access.
pub proof fn law_modifying_masks_have_a_modifying_bit(mask: u32, x: char)
    requires
        x == 'x' || x == 'X',
    ensures
        can_modify(seq!['0', x] + hex_text(mask as nat)) <==> {
            ||| (mask >> 1) & 1 == 1
            ||| (mask >> 2) & 1 == 1
            ||| (mask >> 4) & 1 == 1
            ||| (mask >> 6) & 1 == 1
            ||| (mask >> 8) & 1 == 1
            ||| (mask >> 16) & 1 == 1
            ||| (mask >> 18) & 1 == 1
            ||| (mask >> 19) & 1 == 1
            ||| (mask >> 28) & 1 == 1
            ||| (mask >> 30) & 1 == 1
        },
{
    let digits = hex_text(mask as nat);
    let rights = seq!['0', x] + digits;
    lemma_hex_rights(digits, x);
    lemma_hex_text(mask as nat);
    law_masks_read_back(mask as nat);
    assert((mask & 0x500d_0156 != 0) <==> {
        ||| (mask >> 1) & 1 == 1
        ||| (mask >> 2) & 1 == 1
        ||| (mask >> 4) & 1 == 1
        ||| (mask >> 6) & 1 == 1
        ||| (mask >> 8) & 1 == 1
        ||| (mask >> 16) & 1 == 1
        ||| (mask >> 18) & 1 == 1
        ||| (mask >> 19) & 1 == 1
        ||| (mask >> 28) & 1 == 1
        ||| (mask >> 30) & 1 == 1
    }) by (bit_vector);
}

proof fn lemma_hex_rights(digits: Seq<char>, x: char)
    requires
        x == 'x' || x == 'X',
    ensures
        "0X"@.is_prefix_of(ascii_uppercase(seq!['0', x] + digits)),
        ascii_uppercase(seq!['0', x] + digits).skip(2) == ascii_uppercase(digits),
{
    reveal_strlit("0X");
    let upper = ascii_uppercase(seq!['0', x] + digits);
    assert(upper[0] == '0' && upper[1] == 'X');
    assert(upper.subrange(0, 2) =~= "0X"@);
    assert(upper.skip(2) =~= ascii_uppercase(digits));
}

/// What begins like a mask and cannot be read as one counts as modifying.
pub proof fn law_unreadable_masks_modify(digits: Seq<char>, x: char)
    requires
        x == 'x' || x == 'X',
        hex_mask(ascii_uppercase(digits)) is None,
    ensures
        can_modify(seq!['0', x] + digits),
{
    lemma_hex_rights(digits, x);
}

/// Rights by letters are read in pairs: they modify where the first pair is
/// none of the eight that only read, or where the rest does. No rights at all do
/// not modify, and a single letter does.
pub proof fn law_rights_are_read_in_pairs(a: char, b: char, rest: Seq<char>)
    requires
        a != '0',
        rest.len() == 0 || rest[0] != '0',
    ensures
        ({
            let pair = seq![ascii_upper(a), ascii_upper(b)];
            let reading = pair == seq!['F', 'R'] || pair == seq!['F', 'X'] || pair == seq![
                'G',
                'R',
            ] || pair == seq!['G', 'X'] || pair == seq!['R', 'C'] || pair == seq!['R', 'P']
                || pair == seq!['L', 'C'] || pair == seq!['L', 'O'];
            can_modify(seq![a, b] + rest) <==> !reading || can_modify(rest)
        }),
        !can_modify(Seq::empty()),
        can_modify(seq![a]),
{
    reveal_strlit("0X");
    let all = seq![a, b] + rest;
    let upper = ascii_uppercase(all);
    let after = ascii_uppercase(rest);
    assert(upper.len() == after.len() + 2);
    assert(upper[0] == ascii_upper(a) && upper[1] == ascii_upper(b));
    assert(!"0X"@.is_prefix_of(upper)) by {
        assert("0X"@[0] == '0');
    }
    assert(!"0X"@.is_prefix_of(after)) by {
        if after.len() > 0 {
            assert(after[0] == ascii_upper(rest[0]));
            assert("0X"@[0] == '0');
        }
    }
    assert forall|i: int| 0 <= i < after.len() implies upper[i + 2] == #[trigger] after[i] by {}
    let pair = seq![ascii_upper(a), ascii_upper(b)];
    let reading = pair == seq!['F', 'R'] || pair == seq!['F', 'X'] || pair == seq!['G', 'R'] || pair
        == seq!['G', 'X'] || pair == seq!['R', 'C'] || pair == seq!['R', 'P'] || pair == seq![
        'L',
        'C',
    ] || pair == seq!['L', 'O'];
    assert(reading <==> read_only_right(upper[0], upper[1])) by {
        assert(pair[0] == upper[0] && pair[1] == upper[1]);
        if upper[0] == 'F' && upper[1] == 'R' {
            assert(pair =~= seq!['F', 'R']);
        }
        if upper[0] == 'F' && upper[1] == 'X' {
            assert(pair =~= seq!['F', 'X']);
        }
        if upper[0] == 'G' && upper[1] == 'R' {
            assert(pair =~= seq!['G', 'R']);
        }
        if upper[0] == 'G' && upper[1] == 'X' {
            assert(pair =~= seq!['G', 'X']);
        }
        if upper[0] == 'R' && upper[1] == 'C' {
            assert(pair =~= seq!['R', 'C']);
        }
        if upper[0] == 'R' && upper[1] == 'P' {
            assert(pair =~= seq!['R', 'P']);
        }
        if upper[0] == 'L' && upper[1] == 'C' {
            assert(pair =~= seq!['L', 'C']);
        }
        if upper[0] == 'L' && upper[1] == 'O' {
            assert(pair =~= seq!['L', 'O']);
        }
    }
    if !reading {
        assert(!read_only_right(upper[2 * 0int], upper[2 * 0int + 1]));
        assert(can_modify(all));
    } else {
        if can_modify(rest) {
            if after.len() % 2 == 0 {
                let i = choose|i: int|
                    0 <= i < after.len() / 2 && !read_only_right(
                        #[trigger] after[2 * i],
                        after[2 * i + 1],
                    );
                assert(upper[2 * (i + 1)] == after[2 * i]);
                assert(upper[2 * (i + 1) + 1] == after[2 * i + 1]);
            }
            assert(can_modify(all));
        }
        if can_modify(all) && upper.len() % 2 == 0 {
            let i = choose|i: int|
                0 <= i < upper.len() / 2 && !read_only_right(
                    #[trigger] upper[2 * i],
                    upper[2 * i + 1],
                );
            assert(i > 0);
            assert(upper[2 * i] == after[2 * (i - 1)]);
            assert(upper[2 * i + 1] == after[2 * (i - 1) + 1]);
            assert(can_modify(rest));
        }
    }
    let none = Seq::<char>::empty();
    assert(ascii_uppercase(none).len() == 0);
    assert(ascii_uppercase(seq![a]).len() == 1);
    assert(!"0X"@.is_prefix_of(ascii_uppercase(none)));
    assert(!"0X"@.is_prefix_of(ascii_uppercase(seq![a])));
}

/// A zero where a letter is due counts as modifying, unless it begins a mask.
pub proof fn law_stray_zeros_modify(before: Seq<char>, b: char, rest: Seq<char>)
    requires
        before.len() % 2 == 0,
        before.len() > 0 ==> before[0] != '0',
        before.len() > 0 || (b != 'x' && b != 'X'),
    ensures
        can_modify(before + seq!['0', b] + rest),
{
    reveal_strlit("0X");
    let all = before + seq!['0', b] + rest;
    let upper = ascii_uppercase(all);
    let at = before.len() as int;
    assert(upper[at] == '0');
    assert(!"0X"@.is_prefix_of(upper)) by {
        if before.len() > 0 {
            assert(upper[0] == ascii_upper(before[0]));
            assert("0X"@[0] == '0');
        } else {
            assert(upper[1] == ascii_upper(b));
            assert("0X"@[1] == 'X');
        }
    }
    if upper.len() % 2 == 0 {
        let i = at / 2;
        assert(2 * i == at);
        assert(!read_only_right(upper[2 * i], upper[2 * i + 1]));
    }
}

/// A list is protected where its flags say so, at its beginning or behind
/// another part of the descriptor.
pub proof fn law_protected_lists_say_so(before: Seq<char>, after: Seq<char>)
    ensures
        protected_dacl(seq!['D', ':', 'P'] + after),
        protected_dacl(before + seq!['D', ':', 'P', '('] + after),
        protected_dacl(before + seq!['D', ':', 'P', 'A', 'I', '('] + after),
{
    reveal_strlit("D:P");
    reveal_strlit("D:P(");
    reveal_strlit("D:PAI(");
    let first = ascii_uppercase(seq!['D', ':', 'P'] + after);
    assert(first.subrange(0, 3) =~= "D:P"@);
    assert("D:P"@.is_prefix_of(first));
    let at = before.len() as int;
    let second = ascii_uppercase(before + seq!['D', ':', 'P', '('] + after);
    assert(second.subrange(at, at + 4) =~= "D:P("@);
    assert(contains_part(second, "D:P("@));
    let third = ascii_uppercase(before + seq!['D', ':', 'P', 'A', 'I', '('] + after);
    assert(third.subrange(at, at + 6) =~= "D:PAI("@);
    assert(contains_part(third, "D:PAI("@));
}

/// A list is not protected where a `D:` that is followed by `P` occurs nowhere.
pub proof fn law_other_lists_are_not_protected(sddl: Seq<char>)
    requires
        forall|i: int|
            0 <= i < sddl.len() - 2 ==> !(ascii_upper(#[trigger] sddl[i]) == 'D' && sddl[i + 1]
                == ':' && ascii_upper(sddl[i + 2]) == 'P'),
    ensures
        !protected_dacl(sddl),
{
    reveal_strlit("D:P");
    reveal_strlit("D:P(");
    reveal_strlit("D:PAI(");
    let upper = ascii_uppercase(sddl);
    assert forall|i: int| 0 <= i < sddl.len() - 2 implies !(#[trigger] upper[i] == 'D' && upper[i
        + 1] == ':' && upper[i + 2] == 'P') by {
        assert(ascii_upper(sddl[i]) == upper[i]);
        assert(ascii_upper(sddl[i + 1]) == upper[i + 1]);
        assert(ascii_upper(sddl[i + 2]) == upper[i + 2]);
    }
    if "D:P"@.is_prefix_of(upper) {
        assert(upper[0] == "D:P"@[0] && upper[1] == "D:P"@[1] && upper[2] == "D:P"@[2]);
    }
    if contains_part(upper, "D:P("@) {
        let part = "D:P("@;
        let i = choose|i: int|
            0 <= i <= upper.len() - part.len() && #[trigger] upper.subrange(i, i + part.len())
                == part;
        let found = upper.subrange(i, i + part.len());
        assert(found[0] == upper[i] && found[1] == upper[i + 1] && found[2] == upper[i + 2]);
    }
    if contains_part(upper, "D:PAI("@) {
        let part = "D:PAI("@;
        let i = choose|i: int|
            0 <= i <= upper.len() - part.len() && #[trigger] upper.subrange(i, i + part.len())
                == part;
        let found = upper.subrange(i, i + part.len());
        assert(found[0] == upper[i] && found[1] == upper[i + 1] && found[2] == upper[i + 2]);
    }
}

/// Only protected lists are accepted as protected, and only exclusive ones.
pub proof fn law_protected_and_exclusive(sddl: Seq<char>, sid: Seq<char>)
    ensures
        !protected_dacl(sddl) ==> !protected_user_private(sddl, sid),
        !exclusive_user_private(sddl, sid) ==> !protected_user_private(sddl, sid),
        protected_dacl(sddl) && exclusive_user_private(sddl, sid) ==> protected_user_private(
            sddl,
            sid,
        ),
{
}

/// Lists are compared by their entries, up to the case of the letters, whatever
/// flags stand in front of them.
pub proof fn law_lists_are_compared_by_their_entries(
    d: char,
    e: char,
    flags: Seq<char>,
    other_flags: Seq<char>,
    entries: Seq<char>,
    other_entries: Seq<char>,
)
    requires
        d == 'D' || d == 'd',
        e == 'D' || e == 'd',
        !flags.contains('('),
        !other_flags.contains('('),
    ensures
        same_dacl_aces(
            seq![d, ':'] + flags + seq!['('] + entries,
            seq![e, ':'] + other_flags + seq!['('] + other_entries,
        ) <==> same_ignoring_case(entries, other_entries),
{
    lemma_written_section(d, flags, entries);
    lemma_written_section(e, other_flags, other_entries);
    let a = seq!['('] + entries;
    let b = seq!['('] + other_entries;
    let upper_a = ascii_uppercase(a);
    let upper_b = ascii_uppercase(b);
    assert(upper_a =~= seq!['('] + ascii_uppercase(entries));
    assert(upper_b =~= seq!['('] + ascii_uppercase(other_entries));
    if upper_a == upper_b {
        assert(upper_a.skip(1) =~= ascii_uppercase(entries));
        assert(upper_b.skip(1) =~= ascii_uppercase(other_entries));
    }
}

proof fn lemma_written_section(d: char, flags: Seq<char>, entries: Seq<char>)
    requires
        d == 'D' || d == 'd',
        !flags.contains('('),
    ensures
        ace_section(seq![d, ':'] + flags + seq!['('] + entries) == Some(seq!['('] + entries),
{
    reveal_strlit("D:");
    let header = seq![d, ':'] + flags;
    let upper = ascii_uppercase(header);
    assert(upper[0] == 'D' && upper[1] == ':');
    assert(upper.subrange(0, 2) =~= "D:"@);
    assert("D:"@.is_prefix_of(upper));
    assert(!header.contains('(')) by {
        if header.contains('(') {
            let i = choose|i: int| 0 <= i < header.len() && header[i] == '(';
            assert(i >= 2);
            assert(flags.contains(flags[i - 2]));
        }
    }
    lemma_section(header, seq!['('] + entries);
    assert(header + seq!['('] + entries =~= header + (seq!['('] + entries));
}

/// A text without an entry, or that begins otherwise than a DACL, is the same
/// as none.
pub proof fn law_other_texts_are_compared_with_none(text: Seq<char>, other: Seq<char>)
    requires
        !text.contains('(') || text.len() < 2 || ascii_upper(text[0]) != 'D' || text[1] != ':',
    ensures
        !same_dacl_aces(text, other),
        !same_dacl_aces(other, text),
{
    reveal_strlit("D:");
    lemma_find(text, '(');
    let at = find(text, '(');
    if at < text.len() {
        assert(text.contains(text[at]));
        let upper = ascii_uppercase(text.take(at));
        if "D:"@.is_prefix_of(upper) {
            assert(upper[0] == ascii_upper(text[0]) && upper[1] == ascii_upper(text[1]));
            assert(upper[0] == "D:"@[0] && upper[1] == "D:"@[1]);
        }
    }
}

/// The private list of a user has one entry, which grants full file access to
/// the user, and opts out of inheritance.
pub proof fn law_private_lists_grant_the_user_everything(sid: Seq<char>)
    ensures
        private_sddl_text(sid) == seq!['D', ':', 'P', '(', 'A', ';', ';', 'F', 'A', ';', ';', ';']
            + sid + seq![')'],
{
    reveal_strlit("D:P(A;;FA;;;");
    reveal_strlit(")");
    assert("D:P(A;;FA;;;"@ =~= seq!['D', ':', 'P', '(', 'A', ';', ';', 'F', 'A', ';', ';', ';']);
    assert(")"@ =~= seq![')']);
}

} // verus!
