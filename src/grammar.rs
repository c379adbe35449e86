//! The mathematical model of the identifiers: character classes, the word
//! shapes the grammars are built from, and the splitting of a text at the
//! first occurrence of a separator.
use vstd::prelude::*;

verus! {

pub open spec fn is_lower(c: char) -> bool {
    'a' <= c <= 'z'
}

pub open spec fn is_upper(c: char) -> bool {
    'A' <= c <= 'Z'
}

pub open spec fn is_digit(c: char) -> bool {
    '0' <= c <= '9'
}

pub open spec fn is_lower_alnum(c: char) -> bool {
    is_lower(c) || is_digit(c)
}

/// The characters a word may be made of: lower case letters and digits,
/// and upper case letters too when `upper` holds.
pub open spec fn word_char(c: char, upper: bool) -> bool {
    is_lower_alnum(c) || (upper && is_upper(c))
}

/// `s` has the shape `C(-?C)*`, where `C` is the class of `word_char(_, upper)`:
/// at least one character, single dashes between word characters, no dash at
/// either end and no two dashes in a row.
pub open spec fn dashed_word(s: Seq<char>, upper: bool) -> bool {
    &&& s.len() > 0
    &&& forall|i: int| 0 <= i < s.len() ==> word_char(#[trigger] s[i], upper) || s[i] == '-'
    &&& s[0] != '-'
    &&& s[s.len() - 1] != '-'
    &&& forall|i: int| 0 <= i < s.len() - 1 ==> !(#[trigger] s[i] == '-' && s[i + 1] == '-')
}

/// At least one lower case letter occurs in `s`.
pub open spec fn has_letter(s: Seq<char>) -> bool {
    exists|i: int| 0 <= i < s.len() && is_lower(#[trigger] s[i])
}

/// A package name: 2 to 40 characters of the shape `[a-z0-9](-?[a-z0-9])*`,
/// with at least one letter.
pub open spec fn valid_snap_name(s: Seq<char>) -> bool {
    &&& 2 <= s.len() <= 40
    &&& dashed_word(s, false)
    &&& has_letter(s)
}

/// An instance key: 1 to 10 lower case letters or digits.
pub open spec fn valid_instance_key(s: Seq<char>) -> bool {
    &&& 1 <= s.len() <= 10
    &&& forall|i: int| 0 <= i < s.len() ==> is_lower_alnum(#[trigger] s[i])
}

/// Splits `s` at the first `sep`: the part before it, and the part after it
/// when `sep` occurs at all.
pub open spec fn split_first(s: Seq<char>, sep: char) -> (Seq<char>, Option<Seq<char>>)
    decreases s.len(),
{
    if s.len() == 0 {
        (s, None)
    } else if s[0] == sep {
        (Seq::empty(), Some(s.drop_first()))
    } else {
        let (head, tail) = split_first(s.drop_first(), sep);
        (seq![s[0]] + head, tail)
    }
}

/// Puts the two parts of a split back together around `sep`.
pub open spec fn join_parts(parts: (Seq<char>, Option<Seq<char>>), sep: char) -> Seq<char> {
    match parts.1 {
        None => parts.0,
        Some(tail) => parts.0 + seq![sep] + tail,
    }
}

/// An instance name: a package name, optionally followed by `_` and an
/// instance key.
pub open spec fn valid_instance_name(s: Seq<char>) -> bool {
    let (name, key) = split_first(s, '_');
    &&& valid_snap_name(name)
    &&& match key {
        None => true,
        Some(k) => valid_instance_key(k),
    }
}

/// Where `s` holds no `sep` before index `i` and `sep` at `i`, the split is at `i`;
/// where it holds no `sep` at all, there is nothing after the first part.
pub proof fn lemma_split_first_at(s: Seq<char>, sep: char, i: int)
    requires
        0 <= i <= s.len(),
        forall|j: int| 0 <= j < i ==> s[j] != sep,
        i < s.len() ==> s[i] == sep,
    ensures
        split_first(s, sep) == (if i < s.len() {
            (s.take(i), Some(s.skip(i + 1)))
        } else {
            (s, None::<Seq<char>>)
        }),
    decreases s.len(),
{
    if s.len() == 0 {
    } else if s[0] == sep {
        assert(s.drop_first() =~= s.skip(1));
        assert(s.take(0) =~= Seq::<char>::empty());
    } else {
        let t = s.drop_first();
        lemma_split_first_at(t, sep, i - 1);
        if i < s.len() {
            assert(seq![s[0]] + t.take(i - 1) =~= s.take(i));
            assert(t.skip(i) =~= s.skip(i + 1));
        } else {
            assert(seq![s[0]] + t =~= s);
        }
    }
}

/// The first part of a split holds no separator, and the parts rejoin to the input.
pub proof fn lemma_split_first_parts(s: Seq<char>, sep: char)
    ensures
        !split_first(s, sep).0.contains(sep),
        join_parts(split_first(s, sep), sep) == s,
    decreases s.len(),
{
    if s.len() == 0 {
    } else if s[0] == sep {
        assert(Seq::<char>::empty() + seq![sep] + s.drop_first() =~= s);
    } else {
        let t = s.drop_first();
        lemma_split_first_parts(t, sep);
        let (head, tail) = split_first(t, sep);
        assert(!(seq![s[0]] + head).contains(sep)) by {
            if (seq![s[0]] + head).contains(sep) {
                let k = choose|k: int| 0 <= k < (seq![s[0]] + head).len() && (seq![s[0]] + head)[k] == sep;
                assert(head[k - 1] == sep);
            }
        }
        match tail {
            None => {
                assert(seq![s[0]] + head =~= s);
            },
            Some(tl) => {
                assert(head + seq![sep] + tl == t);
                assert(seq![s[0]] + t =~= s);
                assert(seq![s[0]] + head + seq![sep] + tl =~= seq![s[0]] + (head + seq![sep] + tl));
            },
        }
    }
}

} // verus!
