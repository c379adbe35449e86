//! Security tags: `snap.<name>[_<key>][+<component>].<app>` or
//! `snap.<name>[_<key>][+<component>].hook.<hook>`, where a component may only
//! stand before a hook.
use vstd::prelude::*;
use vstd::utf8::encode_utf8;

use crate::grammar::{
    dashed_word, is_lower, is_lower_alnum, lemma_split_first_at,
    lemma_split_first_parts, split_first, valid_instance_key, word_char,
};
use crate::snap::SNAP_SECURITY_TAG_MAX_LEN;
use crate::text::{byte_len, chars_of, find_char, opt_view, range_eq};

verus! {

pub open spec fn snap_prefix() -> Seq<char> {
    seq!['s', 'n', 'a', 'p', '.']
}

pub open spec fn hook_infix() -> Seq<char> {
    seq!['.', 'h', 'o', 'o', 'k', '.']
}

/// The part of a tag that names the package instance:
/// `[a-z0-9](-?[a-z0-9])*(_[a-z0-9]{1,10})?`, starting with a letter where
/// `letter_first` holds.
pub open spec fn tag_name_part(f: Seq<char>, letter_first: bool) -> bool {
    let (name, key) = split_first(f, '_');
    &&& dashed_word(name, false)
    &&& (letter_first ==> is_lower(name[0]))
    &&& match key {
        None => true,
        Some(k) => valid_instance_key(k),
    }
}

/// A hook name: `[a-z](-?[a-z0-9])*`.
pub open spec fn hook_name(h: Seq<char>) -> bool {
    dashed_word(h, false) && is_lower(h[0])
}

/// An application name: `[a-zA-Z0-9](-?[a-zA-Z0-9])*`.
pub open spec fn app_name(a: Seq<char>) -> bool {
    dashed_word(a, true)
}

/// A component name: `[a-z0-9](-?[a-z0-9])*`.
pub open spec fn component_name(c: Seq<char>) -> bool {
    dashed_word(c, false)
}

/// The tag of application `app` of the package instance `name`.
pub open spec fn app_tag(name: Seq<char>, app: Seq<char>) -> Seq<char> {
    snap_prefix() + name + seq!['.'] + app
}

pub open spec fn component_part(comp: Option<Seq<char>>) -> Seq<char> {
    match comp {
        None => Seq::empty(),
        Some(c) => seq!['+'] + c,
    }
}

/// The tag of hook `hook` of the package instance `name`, or of its component.
pub open spec fn hook_tag(name: Seq<char>, comp: Option<Seq<char>>, hook: Seq<char>) -> Seq<char> {
    snap_prefix() + name + component_part(comp) + hook_infix() + hook
}

/// `tag` is the tag of a hook of a package instance whose name starts with a letter.
pub open spec fn is_hook_tag(tag: Seq<char>) -> bool {
    exists|name: Seq<char>, hook: Seq<char>|
        tag_name_part(name, true) && hook_name(hook) && tag == hook_tag(name, None, hook)
}

/// `tag` is a well-formed tag of the package instance `name`: of one of its
/// applications or hooks where `comp` is `None`, of a hook of component `comp`
/// otherwise.
pub open spec fn tag_matches(tag: Seq<char>, name: Seq<char>, comp: Option<Seq<char>>) -> bool {
    &&& tag_name_part(name, false)
    &&& {
        ||| (comp is None && exists|app: Seq<char>| app_name(app) && tag == app_tag(name, app))
        ||| ((comp is Some ==> component_name(comp->Some_0)) && exists|hook: Seq<char>|
            hook_name(hook) && tag == hook_tag(name, comp, hook))
    }
}

/// What a security tag check accepts: a tag of at most 256 bytes that matches.
pub open spec fn security_tag_valid(tag: Seq<char>, name: Seq<char>, comp: Option<Seq<char>>) -> bool {
    encode_utf8(tag).len() <= 256 && tag_matches(tag, name, comp)
}

/// The character at `j` is allowed in a dashed word `s`: a word character,
/// or a dash that is neither at an end nor after a dash.
spec fn dash_ok_at(s: Seq<char>, j: int, upper: bool) -> bool {
    word_char(s[j], upper) || (s[j] == '-' && j != 0 && j != s.len() - 1 && s[j - 1] != '-')
}

proof fn lemma_dashed_word_by_chars(s: Seq<char>, upper: bool)
    ensures
        dashed_word(s, upper) <==> (s.len() > 0 && forall|j: int|
            0 <= j < s.len() ==> #[trigger] dash_ok_at(s, j, upper)),
{
    if dashed_word(s, upper) {
        assert forall|j: int| 0 <= j < s.len() implies #[trigger] dash_ok_at(s, j, upper) by {
            if s[j] == '-' && j > 0 {
                assert(!(s[j - 1] == '-' && s[j] == '-'));
            }
        }
    }
    if s.len() > 0 && forall|j: int| 0 <= j < s.len() ==> #[trigger] dash_ok_at(s, j, upper) {
        assert(dash_ok_at(s, 0, upper));
        assert(dash_ok_at(s, s.len() - 1, upper));
        assert forall|i: int| 0 <= i < s.len() implies word_char(#[trigger] s[i], upper) || s[i] == '-' by {
            assert(dash_ok_at(s, i, upper));
        }
        assert forall|i: int| 0 <= i < s.len() - 1 implies !(#[trigger] s[i] == '-' && s[i + 1] == '-') by {
            assert(dash_ok_at(s, i + 1, upper));
        }
    }
}

fn is_word_char(c: char, upper: bool) -> (r: bool)
    ensures
        r == word_char(c, upper),
{
    ('a' <= c && c <= 'z') || ('0' <= c && c <= '9') || (upper && 'A' <= c && c <= 'Z')
}

/// Whether the characters of `t` in `lo..hi` form a dashed word.
fn dashed_word_in(t: &Vec<char>, lo: usize, hi: usize, upper: bool) -> (r: bool)
    requires
        lo <= hi <= t.len(),
    ensures
        r == dashed_word(t@.subrange(lo as int, hi as int), upper),
{
    let ghost s = t@.subrange(lo as int, hi as int);
    proof {
        lemma_dashed_word_by_chars(s, upper);
    }
    if lo == hi {
        return false;
    }
    let mut i: usize = lo;
    while i < hi
        invariant
            lo < hi <= t.len(),
            lo <= i <= hi,
            s == t@.subrange(lo as int, hi as int),
            forall|j: int| 0 <= j < i - lo ==> #[trigger] dash_ok_at(s, j, upper),
        decreases hi - i,
    {
        let c = t[i];
        if !is_word_char(c, upper) {
            if c != '-' || i == lo || i + 1 == hi || t[i - 1] == '-' {
                proof {
                    assert(!dash_ok_at(s, i - lo, upper));
                }
                return false;
            }
        }
        proof {
            assert(dash_ok_at(s, i - lo, upper));
        }
        i = i + 1;
    }
    true
}

/// Whether the characters of `t` in `lo..hi` form an instance key.
fn instance_key_in(t: &Vec<char>, lo: usize, hi: usize) -> (r: bool)
    requires
        lo <= hi <= t.len(),
    ensures
        r == valid_instance_key(t@.subrange(lo as int, hi as int)),
{
    let ghost s = t@.subrange(lo as int, hi as int);
    if hi - lo < 1 || hi - lo > 10 {
        return false;
    }
    let mut i: usize = lo;
    while i < hi
        invariant
            lo <= i <= hi <= t.len(),
            s == t@.subrange(lo as int, hi as int),
            forall|j: int| 0 <= j < i - lo ==> is_lower_alnum(#[trigger] s[j]),
        decreases hi - i,
    {
        let c = t[i];
        if !(('a' <= c && c <= 'z') || ('0' <= c && c <= '9')) {
            proof {
                assert(!is_lower_alnum(s[i - lo]));
            }
            return false;
        }
        i = i + 1;
    }
    true
}

/// Whether the characters of `t` in `lo..hi` form the name part of a tag.
fn tag_name_part_in(t: &Vec<char>, lo: usize, hi: usize, letter_first: bool) -> (r: bool)
    requires
        lo <= hi <= t.len(),
    ensures
        r == tag_name_part(t@.subrange(lo as int, hi as int), letter_first),
{
    let ghost s = t@.subrange(lo as int, hi as int);
    match find_char(t, lo, hi, '_') {
        None => {
            proof {
                lemma_split_first_at(s, '_', s.len() as int);
            }
            dashed_word_in(t, lo, hi, false) && (!letter_first || ('a' <= t[lo] && t[lo] <= 'z'))
        },
        Some(u) => {
            proof {
                lemma_split_first_at(s, '_', u - lo);
                assert(s.take(u - lo) =~= t@.subrange(lo as int, u as int));
                assert(s.skip(u - lo + 1) =~= t@.subrange(u + 1, hi as int));
            }
            dashed_word_in(t, lo, u, false) && (!letter_first || ('a' <= t[lo] && t[lo] <= 'z'))
                && instance_key_in(t, u + 1, hi)
        },
    }
}

pub open spec fn is_sep(c: char) -> bool {
    c == '.' || c == '+'
}

pub open spec fn has_snap_prefix(t: Seq<char>) -> bool {
    t.len() >= 5 && t.take(5) == snap_prefix()
}

/// `p` is the first `.` or `+` after the `snap.` that starts `t`.
pub open spec fn name_end_at(t: Seq<char>, p: int) -> bool {
    &&& has_snap_prefix(t)
    &&& 5 <= p < t.len()
    &&& is_sep(t[p])
    &&& forall|j: int| 5 <= j < p ==> !is_sep(#[trigger] t[j])
}

/// From index `q` on, `t` is `.hook.` followed by a hook name.
pub open spec fn hook_suffix(t: Seq<char>, q: int) -> bool {
    &&& 0 <= q
    &&& q + 6 <= t.len()
    &&& t.subrange(q, q + 6) == hook_infix()
    &&& hook_name(t.subrange(q + 6, t.len() as int))
}

/// The name part of a tag holds no `.` and no `+`.
proof fn lemma_name_part_plain(f: Seq<char>, letter_first: bool)
    requires
        tag_name_part(f, letter_first),
    ensures
        forall|i: int| 0 <= i < f.len() ==> !is_sep(#[trigger] f[i]),
{
    let (name, key) = split_first(f, '_');
    lemma_split_first_parts(f, '_');
    assert forall|i: int| 0 <= i < f.len() implies !is_sep(#[trigger] f[i]) by {
        if i < name.len() {
            assert(f[i] == name[i]);
            assert(word_char(name[i], false) || name[i] == '-');
        } else if i > name.len() {
            let k = key->Some_0;
            assert(f[i] == k[i - name.len() - 1]);
            assert(is_lower_alnum(k[i - name.len() - 1]));
        }
    }
}

proof fn lemma_dashed_word_plain(w: Seq<char>, upper: bool)
    requires
        dashed_word(w, upper),
    ensures
        forall|i: int| 0 <= i < w.len() ==> !is_sep(#[trigger] w[i]),
{
    assert forall|i: int| 0 <= i < w.len() implies !is_sep(#[trigger] w[i]) by {
        assert(word_char(w[i], upper) || w[i] == '-');
    }
}

/// The shape of a hook tag pins down where its parts begin and end.
proof fn lemma_hook_form(
    t: Seq<char>,
    name: Seq<char>,
    comp: Option<Seq<char>>,
    hook: Seq<char>,
    letter_first: bool,
)
    requires
        t == hook_tag(name, comp, hook),
        tag_name_part(name, letter_first),
        comp is Some ==> component_name(comp->Some_0),
        hook_name(hook),
    ensures
        name_end_at(t, 5 + (name.len() as int)),
        t.subrange(5, 5 + (name.len() as int)) == name,
        comp is None ==> t[5 + (name.len() as int)] == '.' && hook_suffix(t, 5 + (name.len() as int)),
        comp is Some ==> ({
            let p = 5 + (name.len() as int);
            let c = comp->Some_0;
            let q = p + 1 + (c.len() as int);
            &&& t[p] == '+'
            &&& q < t.len()
            &&& t[q] == '.'
            &&& forall|j: int| p + 1 <= j < q ==> #[trigger] t[j] != '.'
            &&& t.subrange(p + 1, q) == c
            &&& hook_suffix(t, q)
        }),
{
    lemma_name_part_plain(name, letter_first);
    let p = 5 + (name.len() as int);
    let cp = component_part(comp);
    let q = p + (cp.len() as int);
    assert(t.take(5) =~= snap_prefix());
    assert(t.subrange(5, p) =~= name);
    assert forall|j: int| 5 <= j < p implies !is_sep(#[trigger] t[j]) by {
        assert(t[j] == name[j - 5]);
    }
    assert(t.subrange(q, q + 6) =~= hook_infix());
    assert(t.subrange(q + 6, t.len() as int) =~= hook);
    if let Some(c) = comp {
        lemma_dashed_word_plain(c, false);
        assert(t.subrange(p + 1, q) =~= c);
        assert forall|j: int| p + 1 <= j < q implies #[trigger] t[j] != '.' by {
            assert(t[j] == c[j - p - 1]);
        }
        assert(t[p] == '+');
        assert(t[q] == '.');
    } else {
        assert(t[p] == '.');
    }
}

/// The shape of an application tag pins down where its parts begin and end.
proof fn lemma_app_form(t: Seq<char>, name: Seq<char>, app: Seq<char>)
    requires
        t == app_tag(name, app),
        tag_name_part(name, false),
    ensures
        name_end_at(t, 5 + (name.len() as int)),
        t.subrange(5, 5 + (name.len() as int)) == name,
        t[5 + (name.len() as int)] == '.',
        t.subrange(6 + (name.len() as int), t.len() as int) == app,
{
    lemma_name_part_plain(name, false);
    let p = 5 + (name.len() as int);
    assert(t.take(5) =~= snap_prefix());
    assert(t.subrange(5, p) =~= name);
    assert forall|j: int| 5 <= j < p implies !is_sep(#[trigger] t[j]) by {
        assert(t[j] == name[j - 5]);
    }
    assert(t[p] == '.');
    assert(t.subrange(p + 1, t.len() as int) =~= app);
}

/// Where the name part of a tag ends: the first `.` or `+` after `snap.`.
fn name_part_end(t: &Vec<char>) -> (r: Option<usize>)
    ensures
        match r {
            Some(p) => name_end_at(t@, p as int),
            None => forall|p: int| !name_end_at(t@, p),
        },
{
    if !(t.len() >= 5 && t[0] == 's' && t[1] == 'n' && t[2] == 'a' && t[3] == 'p' && t[4] == '.') {
        proof {
            if has_snap_prefix(t@) {
                assert(t@.take(5)[0] == 's' && t@.take(5)[1] == 'n' && t@.take(5)[2] == 'a');
                assert(t@.take(5)[3] == 'p' && t@.take(5)[4] == '.');
            }
        }
        return None;
    }
    proof {
        assert(t@.take(5) =~= snap_prefix());
    }
    let mut i: usize = 5;
    while i < t.len()
        invariant
            5 <= i <= t.len(),
            has_snap_prefix(t@),
            forall|j: int| 5 <= j < i ==> !is_sep(#[trigger] t@[j]),
        decreases t.len() - i,
    {
        if t[i] == '.' || t[i] == '+' {
            return Some(i);
        }
        i = i + 1;
    }
    None
}

/// Whether `t` is, from index `q` on, `.hook.` followed by a hook name.
fn hook_suffix_in(t: &Vec<char>, q: usize) -> (r: bool)
    requires
        q <= t.len(),
    ensures
        r == hook_suffix(t@, q as int),
{
    if t.len() - q < 6 {
        return false;
    }
    if !(t[q] == '.' && t[q + 1] == 'h' && t[q + 2] == 'o' && t[q + 3] == 'o' && t[q + 4] == 'k'
        && t[q + 5] == '.') {
        proof {
            let w = t@.subrange(q as int, q + 6);
            if w == hook_infix() {
                assert(w[0] == '.' && w[1] == 'h' && w[2] == 'o');
                assert(w[3] == 'o' && w[4] == 'k' && w[5] == '.');
            }
        }
        return false;
    }
    proof {
        assert(t@.subrange(q as int, q + 6) =~= hook_infix());
    }
    let h = q + 6;
    let r = dashed_word_in(t, h, t.len(), false) && ('a' <= t[h] && t[h] <= 'z');
    proof {
        if h < t.len() {
            assert(t@.subrange(h as int, t.len() as int)[0] == t@[h as int]);
        }
    }
    r
}

proof fn lemma_name_end_unique(t: Seq<char>, p: int, p0: int)
    requires
        name_end_at(t, p),
        name_end_at(t, p0),
    ensures
        p == p0,
{
    if p < p0 {
        assert(!is_sep(t[p]));
    } else if p > p0 {
        assert(!is_sep(t[p0]));
    }
}

/// What a matching tag shows of itself, whichever decomposition made it match.
proof fn lemma_matches_facts(t: Seq<char>, name: Seq<char>, comp: Option<Seq<char>>)
    requires
        tag_matches(t, name, comp),
    ensures
        name_end_at(t, 5 + (name.len() as int)),
        t.subrange(5, 5 + (name.len() as int)) == name,
        comp is None ==> t[5 + (name.len() as int)] == '.' && (app_name(
            t.subrange(6 + (name.len() as int), t.len() as int),
        ) || hook_suffix(t, 5 + (name.len() as int))),
        comp is Some ==> ({
            let p = 5 + (name.len() as int);
            let c = comp->Some_0;
            let q = p + 1 + (c.len() as int);
            &&& t[p] == '+'
            &&& q < t.len()
            &&& t[q] == '.'
            &&& forall|j: int| p + 1 <= j < q ==> #[trigger] t[j] != '.'
            &&& t.subrange(p + 1, q) == c
            &&& component_name(c)
            &&& hook_suffix(t, q)
        }),
{
    if comp is None && exists|app: Seq<char>| app_name(app) && t == app_tag(name, app) {
        let app = choose|app: Seq<char>| app_name(app) && t == app_tag(name, app);
        lemma_app_form(t, name, app);
    } else {
        let hook = choose|hook: Seq<char>| hook_name(hook) && t == hook_tag(name, comp, hook);
        lemma_hook_form(t, name, comp, hook, false);
    }
}

proof fn lemma_app_witness(t: Seq<char>, p: int)
    requires
        has_snap_prefix(t),
        5 <= p < t.len(),
        t[p] == '.',
    ensures
        t == app_tag(t.subrange(5, p), t.subrange(p + 1, t.len() as int)),
{
    assert(t =~= app_tag(t.subrange(5, p), t.subrange(p + 1, t.len() as int))) by {
        assert forall|i: int| 0 <= i < 5 implies t[i] == snap_prefix()[i] by {
            assert(t.take(5)[i] == t[i]);
        }
    }
}

proof fn lemma_hook_witness(t: Seq<char>, p: int, q: int)
    requires
        has_snap_prefix(t),
        5 <= p <= q,
        p < q ==> t[p] == '+',
        hook_suffix(t, q),
    ensures
        t == hook_tag(
            t.subrange(5, p),
            if p < q {
                Some(t.subrange(p + 1, q))
            } else {
                None
            },
            t.subrange(q + 6, t.len() as int),
        ),
{
    let comp = if p < q {
        Some(t.subrange(p + 1, q))
    } else {
        None
    };
    assert(t =~= hook_tag(t.subrange(5, p), comp, t.subrange(q + 6, t.len() as int))) by {
        assert forall|i: int| 0 <= i < 5 implies t[i] == snap_prefix()[i] by {
            assert(t.take(5)[i] == t[i]);
        }
        assert forall|i: int| q <= i < q + 6 implies t[i] == hook_infix()[i - q] by {
            assert(t.subrange(q, q + 6)[i - q] == t[i]);
        }
    }
}

/// Whether `t` is a tag of an application or hook of the package instance `name`.
fn matches_plain(t: &Vec<char>, name: &Vec<char>) -> (r: bool)
    ensures
        r == tag_matches(t@, name@, None),
{
    proof {
        if tag_matches(t@, name@, None) {
            lemma_matches_facts(t@, name@, None);
        }
    }
    let p = match name_part_end(t) {
        None => {
            return false;
        },
        Some(p) => p,
    };
    proof {
        if tag_matches(t@, name@, None) {
            lemma_name_end_unique(t@, p as int, 5 + name@.len() as int);
        }
    }
    if !range_eq(t, 5, p, name) {
        return false;
    }
    if !tag_name_part_in(t, 5, p, false) {
        return false;
    }
    if t[p] != '.' {
        return false;
    }
    let r = dashed_word_in(t, p + 1, t.len(), true) || hook_suffix_in(t, p);
    proof {
        assert(t@.subrange(5, p as int) == name@);
        if dashed_word(t@.subrange(p + 1, t.len() as int), true) {
            let app = t@.subrange(p + 1, t.len() as int);
            lemma_app_witness(t@, p as int);
            assert(app_name(app) && t@ == app_tag(name@, app));
        } else if hook_suffix(t@, p as int) {
            let hook = t@.subrange(p + 6, t.len() as int);
            lemma_hook_witness(t@, p as int, p as int);
            assert(hook_name(hook) && t@ == hook_tag(name@, None, hook));
        }
        if tag_matches(t@, name@, None) {
            assert(p + 1 == 6 + name@.len());
        }
    }
    r
}

/// Whether `t` is a tag of a hook of component `comp` of the package instance `name`.
fn matches_component(t: &Vec<char>, name: &Vec<char>, comp: &Vec<char>) -> (r: bool)
    ensures
        r == tag_matches(t@, name@, Some(comp@)),
{
    proof {
        if tag_matches(t@, name@, Some(comp@)) {
            lemma_matches_facts(t@, name@, Some(comp@));
        }
    }
    let p = match name_part_end(t) {
        None => {
            return false;
        },
        Some(p) => p,
    };
    proof {
        if tag_matches(t@, name@, Some(comp@)) {
            lemma_name_end_unique(t@, p as int, 5 + name@.len() as int);
        }
    }
    if !range_eq(t, 5, p, name) {
        return false;
    }
    if !tag_name_part_in(t, 5, p, false) {
        return false;
    }
    if t[p] != '+' {
        return false;
    }
    proof {
        assert(p < t.len());
    }
    let q = match find_char(t, p + 1, t.len(), '.') {
        None => {
            return false;
        },
        Some(q) => q,
    };
    proof {
        if tag_matches(t@, name@, Some(comp@)) {
            let q0 = p + 1 + comp@.len() as int;
            if q < q0 {
                assert(t@[q as int] != '.');
            } else if q > q0 {
                assert(t@[q0] != '.');
            }
        }
    }
    let r = range_eq(t, p + 1, q, comp) && dashed_word_in(t, p + 1, q, false) && hook_suffix_in(t, q);
    proof {
        if r {
            lemma_hook_witness(t@, p as int, q as int);
        }
    }
    r
}

/// Whether `security_tag` is the tag of a hook, `snap.<name>[_<key>].hook.<hook>`,
/// where the package name and the hook name start with a letter.
pub fn sc_is_hook_security_tag(security_tag: &str) -> (r: bool)
    ensures
        r == is_hook_tag(security_tag@),
{
    let t = chars_of(security_tag);
    proof {
        if is_hook_tag(t@) {
            let (name, hook) = choose|name: Seq<char>, hook: Seq<char>|
                tag_name_part(name, true) && hook_name(hook) && t@ == hook_tag(name, None, hook);
            lemma_hook_form(t@, name, None, hook, true);
        }
    }
    let p = match name_part_end(&t) {
        None => {
            return false;
        },
        Some(p) => p,
    };
    proof {
        if is_hook_tag(t@) {
            let (name, hook) = choose|name: Seq<char>, hook: Seq<char>|
                tag_name_part(name, true) && hook_name(hook) && t@ == hook_tag(name, None, hook);
            lemma_hook_form(t@, name, None, hook, true);
            lemma_name_end_unique(t@, p as int, 5 + name.len() as int);
        }
    }
    let r = t[p] == '.' && tag_name_part_in(&t, 5, p, true) && hook_suffix_in(&t, p);
    proof {
        if r {
            lemma_hook_witness(t@, p as int, p as int);
        }
    }
    r
}

/// Whether `security_tag` is a tag of the package instance `snap_name`: of
/// one of its applications or hooks where `comp` is `None`, of a hook of the
/// component `comp` otherwise. Tags longer than 256 bytes are refused.
pub fn sc_security_tag_validate(security_tag: &str, snap_name: &str, comp: Option<&str>) -> (r: bool)
    ensures
        r == security_tag_valid(security_tag@, snap_name@, opt_view(comp)),
{
    if byte_len(security_tag) > SNAP_SECURITY_TAG_MAX_LEN {
        return false;
    }
    let t = chars_of(security_tag);
    let name = chars_of(snap_name);
    match comp {
        None => matches_plain(&t, &name),
        Some(c) => {
            let cv = chars_of(c);
            matches_component(&t, &name, &cv)
        },
    }
}

} // verus!
