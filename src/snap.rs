//! Validation of package names, instance keys and instance names, and the
//! splitting of composite names into their parts.
use vstd::prelude::*;
use vstd::string::StrSliceExecFns;
use vstd::utf8::{encode_utf8, is_ascii_chars, is_ascii_chars_encode_utf8};

use crate::grammar::{
    dashed_word, has_letter, is_lower, is_lower_alnum, lemma_split_first_at,
    lemma_split_first_parts, split_first, valid_instance_key, valid_instance_name,
    valid_snap_name, word_char,
};
use crate::text::{byte_len, chars_of, find_char, opt_view};

pub use crate::tag::{sc_is_hook_security_tag, sc_security_tag_validate};

verus! {

broadcast use vstd::string::group_string_axioms;

/// The longest package name.
pub const SNAP_NAME_LEN: usize = 40;

/// The longest instance key.
pub const SNAP_INSTANCE_KEY_LEN: usize = 10;

/// The longest instance name: a package name, the separator and a key.
pub const SNAP_INSTANCE_LEN: usize = SNAP_NAME_LEN + 1 + SNAP_INSTANCE_KEY_LEN;

/// The longest security tag, in bytes.
pub const SNAP_SECURITY_TAG_MAX_LEN: usize = 256;

/// What part of an identifier a validation error is about.
#[derive(Debug, PartialEq, Eq, Structural, Clone, Copy)]
pub enum ErrorKind {
    InvalidName,
    InvalidInstanceKey,
    InvalidInstanceName,
}

/// A validation error: its kind and a message for people.
#[derive(Debug, PartialEq)]
pub struct Error<'a> {
    pub error_kind: ErrorKind,
    pub msg: &'a str,
}

impl<'a> Error<'a> {
    pub fn new(kind: ErrorKind, msg: &'a str) -> (r: Error<'a>)
        ensures
            r.error_kind == kind,
            r.msg == msg,
    {
        Error { error_kind: kind, msg }
    }

    pub fn kind(&self) -> (r: ErrorKind)
        ensures
            r == self.error_kind,
    {
        self.error_kind
    }

    pub fn msg(&self) -> (r: &str)
        ensures
            r == self.msg,
    {
        self.msg
    }
}

/// The kind and message that an error result carries, if any.
pub open spec fn error_of(r: Result<(), Error>) -> Option<(ErrorKind, Seq<char>)> {
    match r {
        Ok(_) => None,
        Err(e) => Some((e.error_kind, e.msg@)),
    }
}

/// The character at `i` stops the scan of a package name: it is not a lower
/// case letter, digit or dash, or it is a dash at the start or after a dash.
pub open spec fn name_fault_at(s: Seq<char>, i: int) -> bool {
    ||| !(is_lower_alnum(s[i]) || s[i] == '-')
    ||| (s[i] == '-' && (i == 0 || s[i - 1] == '-'))
}

/// `i` is the first index at which the scan of a package name stops.
pub open spec fn first_name_fault(s: Seq<char>, i: int) -> bool {
    &&& 0 <= i < s.len()
    &&& name_fault_at(s, i)
    &&& forall|j: int| 0 <= j < i ==> !name_fault_at(s, j)
}

/// The message for a scan that stops at index `i`.
pub open spec fn name_fault_message(s: Seq<char>, i: int) -> Seq<char> {
    if !(is_lower_alnum(s[i]) || s[i] == '-') {
        "snap name must use lower case letters, digits or dashes"@
    } else if i == 0 {
        "snap name cannot start with a dash"@
    } else {
        "snap name cannot contain two consecutive dashes"@
    }
}

/// Why `s` is not a package name, checked in this order: the first character
/// that stops the scan, a trailing dash, no letter, then the length.
pub open spec fn snap_name_fault(s: Seq<char>) -> Option<Seq<char>> {
    if exists|i: int| first_name_fault(s, i) {
        let i = choose|i: int| first_name_fault(s, i);
        Some(name_fault_message(s, i))
    } else if s.len() > 0 && s[s.len() - 1] == '-' {
        Some("snap name cannot end with a dash"@)
    } else if !has_letter(s) {
        Some("snap name must contain at least one letter"@)
    } else if s.len() < 2 {
        Some("snap name must be longer than 1 character"@)
    } else if s.len() > 40 {
        Some("snap name must be shorter than 40 characters"@)
    } else {
        None
    }
}

/// Why `s` is not an instance key: a character other than a lower case
/// letter or digit, emptiness, then the length.
pub open spec fn instance_key_fault(s: Seq<char>) -> Option<Seq<char>> {
    if exists|i: int| 0 <= i < s.len() && !is_lower_alnum(#[trigger] s[i]) {
        Some("instance key must use lower case letters or digits"@)
    } else if s.len() == 0 {
        Some("instance key must contain at least one letter or digit"@)
    } else if s.len() > 10 {
        Some("instance key must be shorter than 10 characters"@)
    } else {
        None
    }
}

/// Why `s` is not an instance name: the byte length, a second separator,
/// then the fault of the package name and of the instance key, in this order.
pub open spec fn instance_name_fault(s: Seq<char>) -> Option<(ErrorKind, Seq<char>)> {
    let (name, key) = split_first(s, '_');
    if encode_utf8(s).len() > 51 {
        Some((ErrorKind::InvalidInstanceName, "snap instance name can be at most 51 characters long"@))
    } else if key is Some && key->Some_0.contains('_') {
        Some((ErrorKind::InvalidInstanceName, "snap instance name can contain only one underscore"@))
    } else if snap_name_fault(name) is Some {
        Some((ErrorKind::InvalidName, snap_name_fault(name)->Some_0))
    } else if key is Some && instance_key_fault(key->Some_0) is Some {
        Some((ErrorKind::InvalidInstanceKey, instance_key_fault(key->Some_0)->Some_0))
    } else {
        None
    }
}

/// The scan reports the message of the first index at which it stops.
proof fn lemma_first_name_fault(s: Seq<char>, i: int)
    requires
        first_name_fault(s, i),
    ensures
        snap_name_fault(s) == Some(name_fault_message(s, i)),
{
    let k = choose|k: int| first_name_fault(s, k);
    assert(k == i) by {
        if k < i {
            assert(!name_fault_at(s, k));
        } else if k > i {
            assert(!name_fault_at(s, i));
        }
    }
}

/// A package name is found faultless exactly when it is valid.
proof fn lemma_snap_name_fault_valid(s: Seq<char>)
    ensures
        snap_name_fault(s) is None <==> valid_snap_name(s),
{
    if valid_snap_name(s) {
        assert forall|i: int| 0 <= i < s.len() implies !name_fault_at(s, i) by {
            if s[i] == '-' && i > 0 {
                assert(!(s[i - 1] == '-' && s[i] == '-'));
            }
        }
        assert(!exists|k: int| first_name_fault(s, k));
        assert(snap_name_fault(s) is None);
    }
    if snap_name_fault(s) is None {
        assert forall|i: int| 0 <= i < s.len() implies !name_fault_at(s, i) by {
            if name_fault_at(s, i) {
                let first = first_fault_exists(s, i);
            }
        }
        assert forall|i: int| 0 <= i < s.len() - 1 implies !(#[trigger] s[i] == '-' && s[i + 1] == '-') by {
            assert(!name_fault_at(s, i + 1));
        }
        assert(!name_fault_at(s, 0));
        assert forall|i: int| 0 <= i < s.len() implies word_char(#[trigger] s[i], false) || s[i] == '-' by {
            assert(!name_fault_at(s, i));
        }
        assert(valid_snap_name(s));
    }
}

/// Where the scan of a package name stops somewhere, it stops first somewhere.
proof fn first_fault_exists(s: Seq<char>, i: int) -> (k: int)
    requires
        0 <= i < s.len(),
        name_fault_at(s, i),
    ensures
        first_name_fault(s, k),
    decreases i,
{
    if exists|j: int| 0 <= j < i && name_fault_at(s, j) {
        let j = choose|j: int| 0 <= j < i && name_fault_at(s, j);
        first_fault_exists(s, j)
    } else {
        i
    }
}

/// A key is found faultless exactly when it is valid.
proof fn lemma_instance_key_fault_valid(s: Seq<char>)
    ensures
        instance_key_fault(s) is None <==> valid_instance_key(s),
{
}

/// An instance name is found faultless exactly when it is valid.
proof fn lemma_instance_name_fault_valid(s: Seq<char>)
    ensures
        instance_name_fault(s) is None <==> valid_instance_name(s),
{
    let (name, key) = split_first(s, '_');
    lemma_snap_name_fault_valid(name);
    lemma_split_first_parts(s, '_');
    match key {
        Some(k) => {
            lemma_instance_key_fault_valid(k);
        },
        None => {},
    }
    if valid_instance_name(s) {
        match key {
            Some(k) => {
                assert(!k.contains('_'));
                assert(is_ascii_chars(name));
                assert(is_ascii_chars(k));
                assert(is_ascii_chars(s)) by {
                    assert(s == name + seq!['_'] + k);
                    assert forall|i: int| 0 <= i < s.len() implies '\0' <= #[trigger] s[i] <= '\u{7f}' by {
                        if i < name.len() {
                            assert(s[i] == name[i]);
                        } else if i > name.len() {
                            assert(s[i] == k[i - name.len() - 1]);
                        }
                    }
                }
            },
            None => {
                assert(is_ascii_chars(s));
            },
        }
        is_ascii_chars_encode_utf8(s);
    }
}

/// Checks that `snap_name` is a valid package name.
pub fn sc_snap_name_validate(snap_name: &str) -> (r: Result<(), Error>)
    ensures
        r is Ok <==> valid_snap_name(snap_name@),
        error_of(r) == match snap_name_fault(snap_name@) {
            None => None,
            Some(m) => Some((ErrorKind::InvalidName, m)),
        },
{
    proof {
        lemma_snap_name_fault_valid(snap_name@);
    }
    let v = chars_of(snap_name);
    let mut got_letter = false;
    let mut last: Option<char> = None;
    let mut i: usize = 0;
    while i < v.len()
        invariant
            i <= v.len(),
            v@ == snap_name@,
            forall|j: int| 0 <= j < i ==> !name_fault_at(v@, j),
            got_letter == has_letter(v@.take(i as int)),
            last == (if i == 0 {
                None
            } else {
                Some(v@[i - 1])
            }),
        decreases v.len() - i,
    {
        let c = v[i];
        proof {
            assert(v@.take(i + 1) == v@.take(i as int).push(c));
            assert(v@.take(i + 1)[i as int] == c);
        }
        if 'a' <= c && c <= 'z' {
            got_letter = true;
            last = Some(c);
        } else if '0' <= c && c <= '9' {
            proof {
                if has_letter(v@.take(i + 1)) {
                    let k = choose|k: int| 0 <= k < i + 1 && is_lower(#[trigger] v@.take(i + 1)[k]);
                    assert(v@.take(i as int)[k] == v@.take(i + 1)[k]);
                }
            }
            last = Some(c);
        } else if c == '-' {
            match last {
                Some(p) => {
                    if p == '-' {
                        proof {
                            lemma_first_name_fault(v@, i as int);
                        }
                        return Err(
                            Error::new(
                                ErrorKind::InvalidName,
                                "snap name cannot contain two consecutive dashes",
                            ),
                        );
                    }
                },
                None => {
                    proof {
                        lemma_first_name_fault(v@, i as int);
                    }
                    return Err(Error::new(ErrorKind::InvalidName, "snap name cannot start with a dash"));
                },
            }
            proof {
                if has_letter(v@.take(i + 1)) {
                    let k = choose|k: int| 0 <= k < i + 1 && is_lower(#[trigger] v@.take(i + 1)[k]);
                    assert(v@.take(i as int)[k] == v@.take(i + 1)[k]);
                }
            }
            last = Some(c);
        } else {
            proof {
                lemma_first_name_fault(v@, i as int);
            }
            return Err(
                Error::new(
                    ErrorKind::InvalidName,
                    "snap name must use lower case letters, digits or dashes",
                ),
            );
        }
        i = i + 1;
    }
    proof {
        assert(v@.take(v.len() as int) == v@);
        assert(!exists|k: int| first_name_fault(v@, k));
    }
    match last {
        Some(p) => {
            if p == '-' {
                return Err(Error::new(ErrorKind::InvalidName, "snap name cannot end with a dash"));
            }
        },
        None => {},
    }
    if !got_letter {
        return Err(Error::new(ErrorKind::InvalidName, "snap name must contain at least one letter"));
    }
    proof {
        assert(is_ascii_chars(v@)) by {
            assert forall|k: int| 0 <= k < v@.len() implies '\0' <= #[trigger] v@[k] <= '\u{7f}' by {
                assert(!name_fault_at(v@, k));
            }
        }
        is_ascii_chars_encode_utf8(v@);
    }
    let n = byte_len(snap_name);
    if n < 2 {
        return Err(Error::new(ErrorKind::InvalidName, "snap name must be longer than 1 character"));
    }
    if n > SNAP_NAME_LEN {
        return Err(Error::new(ErrorKind::InvalidName, "snap name must be shorter than 40 characters"));
    }
    Ok(())
}

/// Checks that `instance_key` is a valid instance key.
pub fn sc_instance_key_validate(instance_key: &str) -> (r: Result<(), Error>)
    ensures
        r is Ok <==> valid_instance_key(instance_key@),
        error_of(r) == match instance_key_fault(instance_key@) {
            None => None,
            Some(m) => Some((ErrorKind::InvalidInstanceKey, m)),
        },
{
    let v = chars_of(instance_key);
    let mut i: usize = 0;
    while i < v.len()
        invariant
            i <= v.len(),
            v@ == instance_key@,
            forall|j: int| 0 <= j < i ==> is_lower_alnum(#[trigger] v@[j]),
        decreases v.len() - i,
    {
        let c = v[i];
        if !(('a' <= c && c <= 'z') || ('0' <= c && c <= '9')) {
            return Err(
                Error::new(
                    ErrorKind::InvalidInstanceKey,
                    "instance key must use lower case letters or digits",
                ),
            );
        }
        i = i + 1;
    }
    if instance_key.is_empty() {
        return Err(
            Error::new(
                ErrorKind::InvalidInstanceKey,
                "instance key must contain at least one letter or digit",
            ),
        );
    }
    proof {
        assert(is_ascii_chars(v@)) by {
            assert forall|k: int| 0 <= k < v@.len() implies '\0' <= #[trigger] v@[k] <= '\u{7f}' by {
                assert(is_lower_alnum(v@[k]));
            }
        }
        is_ascii_chars_encode_utf8(v@);
    }
    if byte_len(instance_key) > SNAP_INSTANCE_KEY_LEN {
        return Err(
            Error::new(
                ErrorKind::InvalidInstanceKey,
                "instance key must be shorter than 10 characters",
            ),
        );
    }
    Ok(())
}

/// Splits `s` at its first `sep`, without checking either part.
fn split_at_first(s: &str, sep: char) -> (r: (&str, Option<&str>))
    ensures
        (r.0@, opt_view(r.1)) == split_first(s@, sep),
{
    let v = chars_of(s);
    match find_char(&v, 0, v.len(), sep) {
        None => {
            proof {
                lemma_split_first_at(s@, sep, s@.len() as int);
            }
            (s, None)
        },
        Some(i) => {
            proof {
                lemma_split_first_at(s@, sep, i as int);
            }
            let head = s.substring_char(0, i);
            let tail = s.substring_char(i + 1, v.len());
            proof {
                assert(head@ =~= s@.take(i as int));
                assert(tail@ =~= s@.skip(i + 1));
            }
            (head, Some(tail))
        },
    }
}

/// Splits an instance name into the package name and, where a `_` occurs,
/// the instance key that follows the first one. Nothing is validated.
pub fn sc_snap_split_instance_name(instance_name: &str) -> (r: (&str, Option<&str>))
    ensures
        (r.0@, opt_view(r.1)) == split_first(instance_name@, '_'),
{
    split_at_first(instance_name, '_')
}

/// The package name of an instance name: all before the first `_`. Nothing is
/// validated, so this always succeeds.
pub fn sc_snap_drop_instance_key(instance_name: &str) -> (r: Result<&str, &str>)
    ensures
        r is Ok,
        r->Ok_0@ == split_first(instance_name@, '_').0,
{
    let (name, _key) = split_at_first(instance_name, '_');
    Ok(name)
}

/// Splits `name+component` at the first `+`. Nothing is validated.
pub fn sc_snap_split_snap_component(component: &str) -> (r: (&str, Option<&str>))
    ensures
        (r.0@, opt_view(r.1)) == split_first(component@, '+'),
{
    split_at_first(component, '+')
}

/// Checks that `instance_name` is a package name, optionally followed by `_`
/// and an instance key.
pub fn sc_instance_name_validate(instance_name: &str) -> (r: Result<(), Error>)
    ensures
        r is Ok <==> valid_instance_name(instance_name@),
        error_of(r) == instance_name_fault(instance_name@),
{
    proof {
        lemma_instance_name_fault_valid(instance_name@);
    }
    if byte_len(instance_name) > SNAP_INSTANCE_LEN {
        return Err(
            Error::new(
                ErrorKind::InvalidInstanceName,
                "snap instance name can be at most 51 characters long",
            ),
        );
    }
    let (snap_name, maybe_instance_key) = sc_snap_split_instance_name(instance_name);
    match maybe_instance_key {
        Some(instance_key) => {
            let kv = chars_of(instance_key);
            match find_char(&kv, 0, kv.len(), '_') {
                Some(j) => {
                    proof {
                        assert(instance_key@[j as int] == '_');
                    }
                    return Err(
                        Error::new(
                            ErrorKind::InvalidInstanceName,
                            "snap instance name can contain only one underscore",
                        ),
                    );
                },
                None => {
                    assert(!instance_key@.contains('_'));
                },
            }
        },
        None => {},
    }
    match sc_snap_name_validate(snap_name) {
        Ok(()) => {},
        Err(e) => {
            return Err(e);
        },
    }
    match maybe_instance_key {
        Some(instance_key) => sc_instance_key_validate(instance_key),
        None => Ok(()),
    }
}

/// Every character takes at least one byte in UTF-8.
proof fn lemma_encode_utf8_len(s: Seq<char>)
    ensures
        encode_utf8(s).len() >= s.len(),
    decreases s.len(),
{
    if s.len() > 0 {
        lemma_encode_utf8_len(s.drop_first());
    }
}

/// A text of 2 to 40 characters, each a lower case letter, a digit or a dash,
/// with no dash at either end, no two dashes in a row and at least one letter,
/// is a valid package name: the package name check accepts it.
pub proof fn lemma_dashed_names_accepted(s: Seq<char>)
    requires
        2 <= s.len() <= 40,
        forall|i: int| 0 <= i < s.len() ==> is_lower_alnum(#[trigger] s[i]) || s[i] == '-',
        s[0] != '-',
        s[s.len() - 1] != '-',
        forall|i: int| 0 <= i < s.len() - 1 ==> !(#[trigger] s[i] == '-' && s[i + 1] == '-'),
        has_letter(s),
    ensures
        valid_snap_name(s),
        snap_name_fault(s) is None,
{
    lemma_snap_name_fault_valid(s);
}

/// A text holding any character other than a lower case ASCII letter, digit
/// or dash (an upper case letter, a symbol, a non-ASCII character) is no
/// package name: the package name check rejects it.
pub proof fn lemma_foreign_chars_rejected(s: Seq<char>, i: int)
    requires
        0 <= i < s.len(),
        !(is_lower_alnum(s[i]) || s[i] == '-'),
    ensures
        !valid_snap_name(s),
        snap_name_fault(s) is Some,
{
    lemma_snap_name_fault_valid(s);
    assert(!word_char(s[i], false));
}

/// Of two well-shaped package names with a letter, one of 40 characters is
/// accepted and one of 41 is rejected as too long.
pub proof fn lemma_snap_name_length_boundary(s: Seq<char>)
    requires
        dashed_word(s, false),
        has_letter(s),
    ensures
        s.len() == 40 ==> valid_snap_name(s) && snap_name_fault(s) is None,
        s.len() == 41 ==> !valid_snap_name(s) && snap_name_fault(s) == Some(
            "snap name must be shorter than 40 characters"@,
        ),
{
    lemma_snap_name_fault_valid(s);
    if s.len() == 41 {
        assert forall|i: int| 0 <= i < s.len() implies !name_fault_at(s, i) by {
            assert(word_char(s[i], false) || s[i] == '-');
            if s[i] == '-' && i > 0 {
                assert(!(s[i - 1] == '-' && s[i] == '-'));
            }
        }
    }
}

/// An instance name whose package name and instance key (where there is a
/// separator) are valid is accepted, whatever its length.
pub proof fn lemma_valid_parts_accepted(s: Seq<char>)
    requires
        valid_snap_name(split_first(s, '_').0),
        split_first(s, '_').1 is Some ==> valid_instance_key(split_first(s, '_').1->Some_0),
    ensures
        valid_instance_name(s),
        instance_name_fault(s) is None,
{
    lemma_instance_name_fault_valid(s);
}

/// An instance name of more than 51 characters is rejected for its length,
/// whatever its parts.
pub proof fn lemma_long_instance_name_rejected(s: Seq<char>)
    requires
        s.len() > 51,
    ensures
        !valid_instance_name(s),
        instance_name_fault(s) == Some(
            (ErrorKind::InvalidInstanceName, "snap instance name can be at most 51 characters long"@),
        ),
{
    lemma_encode_utf8_len(s);
    lemma_instance_name_fault_valid(s);
}

} // verus!
