//! Relative-path text helpers shared by the compare foundation and the tree projections.

use vstd::prelude::*;
use crate::text;
use crate::text::{
    TrimClass, chars_of, join_chars, slice_chars, split_chars, string_from_chars, trim_chars,
};

verus! {

// ---------------------------------------------------------------------------
// Specifications
// ---------------------------------------------------------------------------

pub open spec fn bs_to_slash(c: char) -> char {
    if c == '\\' {
        '/'
    } else {
        c
    }
}

/// `replace('\\', "/")`.
pub open spec fn replace_bs(s: Seq<char>) -> Seq<char> {
    s.map_values(|c: char| bs_to_slash(c))
}

/// What `normalize_relative_path` gives: trim white space, trim `/` and `\`
/// from both ends, and turn the remaining `\` into `/`.
pub open spec fn normalize_path(s: Seq<char>) -> Seq<char> {
    replace_bs(text::trim_by(text::trim(s), TrimClass::Slashes))
}

/// Trimmed, non-empty pieces of a split, in order.
pub open spec fn nonempty_trimmed(pieces: Seq<Seq<char>>) -> Seq<Seq<char>>
    decreases pieces.len(),
{
    if pieces.len() == 0 {
        Seq::<Seq<char>>::empty()
    } else {
        let init = nonempty_trimmed(pieces.drop_last());
        let t = text::trim(pieces.last());
        if t.len() > 0 {
            init.push(t)
        } else {
            init
        }
    }
}

/// What `path_components` gives: split on `/`, trim each part, keep the non-empty ones.
pub open spec fn components(s: Seq<char>) -> Seq<Seq<char>> {
    nonempty_trimmed(text::split_by(s, '/'))
}

/// What `join_path_components` gives.
pub open spec fn join_path(parts: Seq<Seq<char>>) -> Seq<char> {
    text::join_seq(parts, seq!['/'])
}

/// Index of the last `/`, if any.
pub open spec fn last_slash(s: Seq<char>) -> Option<int>
    decreases s.len(),
{
    if s.len() == 0 {
        None
    } else if s.last() == '/' {
        Some(s.len() - 1)
    } else {
        last_slash(s.drop_last())
    }
}

/// What `parent_relative_path` gives.
pub open spec fn parent_path(s: Seq<char>) -> Option<Seq<char>> {
    let n = normalize_path(s);
    if n.len() == 0 {
        None
    } else {
        match last_slash(n) {
            Some(i) => Some(n.take(i)),
            None => None,
        }
    }
}

/// Number of `/` characters.
pub open spec fn slash_count(s: Seq<char>) -> nat
    decreases s.len(),
{
    if s.len() == 0 {
        0
    } else {
        slash_count(s.drop_last()) + if s.last() == '/' {
            1nat
        } else {
            0nat
        }
    }
}

/// Nesting level of a node key: the root `""` is level 0, `a` level 1, `a/b` level 2.
pub open spec fn key_level(k: Seq<char>) -> nat {
    if k.len() == 0 {
        0
    } else {
        slash_count(k) + 1
    }
}

/// Key of the parent node (`""` for top-level keys).
pub open spec fn key_parent(k: Seq<char>) -> Seq<char> {
    match last_slash(k) {
        Some(i) => k.take(i),
        None => Seq::<char>::empty(),
    }
}

/// Last component of a key.
pub open spec fn key_name(k: Seq<char>) -> Seq<char> {
    match last_slash(k) {
        Some(i) => k.skip(i + 1),
        None => k,
    }
}

/// A path component as `path_components` yields it.
pub open spec fn valid_piece(p: Seq<char>) -> bool {
    &&& p.len() > 0
    &&& text::trim(p) == p
    &&& !p.contains('/')
    &&& !p.contains('\\')
}

pub open spec fn valid_pieces(c: Seq<Seq<char>>) -> bool {
    forall|i: int| 0 <= i < c.len() ==> valid_piece(#[trigger] c[i])
}

/// The key of the node that the first `k` components of `c` name.
pub open spec fn prefix_key(c: Seq<Seq<char>>, k: int) -> Seq<char> {
    join_path(c.take(k))
}

/// A fixed point of `normalize_path`: what every node key is.
pub open spec fn normal_key(k: Seq<char>) -> bool {
    normalize_path(k) == k
}

/// Whether a relative path has a component starting with `.` (`is_hidden_relative_path`).
pub open spec fn is_hidden_path(s: Seq<char>) -> bool {
    let pieces = text::split_by(replace_bs(text::trim_by(s, TrimClass::Slashes)), '/');
    exists|i: int|
        0 <= i < pieces.len() && text::trim(#[trigger] pieces[i]).len() > 0 && text::trim(pieces[i])[0] == '.'
}

// ---------------------------------------------------------------------------
// Lemmas
// ---------------------------------------------------------------------------

pub proof fn lemma_trim_by_ends(s: Seq<char>, cls: TrimClass)
    ensures
        text::trim_by(s, cls).len() <= s.len(),
        text::lead(s, cls) + text::trim_by(s, cls).len() <= s.len(),
        text::trim_by(s, cls).len() > 0 ==> !text::in_class(cls, text::trim_by(s, cls)[0]) && !text::in_class(
            cls,
            text::trim_by(s, cls).last(),
        ),
        text::trim_by(s, cls) == s.subrange(
            text::lead(s, cls) as int,
            (text::lead(s, cls) + text::trim_by(s, cls).len()) as int,
        ),
    decreases s.len(),
{
    let t = text::trim_start_by(s, cls);
    text::lemma_lead_bound(s, cls);
    lemma_lead_first(s, cls);
    text::lemma_trail_bound(t, cls);
    lemma_trail_last(t, cls);
    let r = text::trim_by(s, cls);
    if r.len() > 0 {
        assert(r[0] == t[0]);
        assert(r.last() == t[t.len() - text::trail(t, cls) - 1]);
    }
    assert(r =~= s.subrange(text::lead(s, cls) as int, (text::lead(s, cls) + r.len()) as int));
}

pub proof fn lemma_lead_first(s: Seq<char>, cls: TrimClass)
    ensures
        text::lead(s, cls) < s.len() ==> !text::in_class(cls, s[text::lead(s, cls) as int]),
        forall|j: int| 0 <= j < text::lead(s, cls) ==> text::in_class(cls, #[trigger] s[j]),
    decreases s.len(),
{
    if s.len() > 0 && text::in_class(cls, s[0]) {
        let t = s.drop_first();
        lemma_lead_first(t, cls);
        text::lemma_lead_bound(t, cls);
        assert forall|j: int| 0 <= j < text::lead(s, cls) implies text::in_class(cls, #[trigger] s[j]) by {
            if j > 0 {
                assert(s[j] == t[j - 1]);
            }
        }
    }
}

pub proof fn lemma_trail_last(s: Seq<char>, cls: TrimClass)
    ensures
        text::trail(s, cls) < s.len() ==> !text::in_class(cls, s[s.len() - 1 - text::trail(s, cls)]),
        forall|j: int| s.len() - text::trail(s, cls) <= j < s.len() ==> text::in_class(cls, #[trigger] s[j]),
    decreases s.len(),
{
    if s.len() > 0 && text::in_class(cls, s.last()) {
        let t = s.drop_last();
        lemma_trail_last(t, cls);
        text::lemma_trail_bound(t, cls);
        assert forall|j: int| s.len() - text::trail(s, cls) <= j < s.len() implies text::in_class(
            cls,
            #[trigger] s[j],
        ) by {
            if j < s.len() - 1 {
                assert(s[j] == t[j]);
            }
        }
    }
}

/// A text whose ends are outside the class is its own trim.
pub proof fn lemma_trim_by_fixed(s: Seq<char>, cls: TrimClass)
    requires
        s.len() > 0 ==> !text::in_class(cls, s[0]) && !text::in_class(cls, s.last()),
    ensures
        text::trim_by(s, cls) == s,
{
    text::lemma_lead_exact(s, cls, 0);
    assert(s.skip(0) =~= s);
    if s.len() > 0 {
        text::lemma_trail_exact(s, cls, 0);
    } else {
        text::lemma_trail_exact(s, cls, 0);
    }
    assert(s.take(s.len() as int) =~= s);
}

pub proof fn lemma_trim_idempotent(s: Seq<char>)
    ensures
        text::trim(text::trim(s)) == text::trim(s),
{
    lemma_trim_by_ends(s, TrimClass::Whitespace);
    lemma_trim_by_fixed(text::trim(s), TrimClass::Whitespace);
}

pub proof fn lemma_split_sep_free(s: Seq<char>, sep: char, x: char)
    requires
        x == sep || !s.contains(x),
    ensures
        forall|k: int| 0 <= k < text::split_by(s, sep).len() ==> !(#[trigger] text::split_by(s, sep)[k]).contains(x),
    decreases s.len(),
{
    text::lemma_split_nonempty(s, sep);
    if s.len() > 0 {
        let t = s.drop_last();
        if x != sep {
            assert forall|c: char| t.contains(c) implies s.contains(c) by {
                let j = choose|j: int| 0 <= j < t.len() && t[j] == c;
                assert(s[j] == c);
            }
        }
        lemma_split_sep_free(t, sep, x);
        text::lemma_split_nonempty(t, sep);
        let init = text::split_by(t, sep);
        if s.last() != sep {
            let p = init.last().push(s.last());
            assert(!p.contains(x)) by {
                if p.contains(x) {
                    let j = choose|j: int| 0 <= j < p.len() && p[j] == x;
                    if j < p.len() - 1 {
                        assert(init.last().contains(x));
                    } else {
                        assert(s.contains(x)) by {
                            assert(s[s.len() - 1] == x);
                        }
                    }
                }
            }
        }
    }
}

pub proof fn lemma_trim_subrange_free(s: Seq<char>, x: char)
    requires
        !s.contains(x),
    ensures
        !text::trim(s).contains(x),
{
    lemma_trim_by_ends(s, TrimClass::Whitespace);
    let t = text::trim(s);
    let l = text::lead(s, TrimClass::Whitespace) as int;
    if t.contains(x) {
        let j = choose|j: int| 0 <= j < t.len() && t[j] == x;
        assert(t == s.subrange(l, l + t.len()));
        assert(t[j] == s[l + j]);
        assert(s.contains(x));
    }
}

pub proof fn lemma_nonempty_trimmed_valid(pieces: Seq<Seq<char>>)
    requires
        forall|k: int|
            0 <= k < pieces.len() ==> !(#[trigger] pieces[k]).contains('/') && !pieces[k].contains(
                '\\',
            ),
    ensures
        valid_pieces(nonempty_trimmed(pieces)),
        nonempty_trimmed(pieces).len() <= pieces.len(),
    decreases pieces.len(),
{
    if pieces.len() > 0 {
        let init = pieces.drop_last();
        assert forall|k: int| 0 <= k < init.len() implies !(#[trigger] init[k]).contains('/')
            && !init[k].contains('\\') by {
            assert(init[k] == pieces[k]);
        }
        lemma_nonempty_trimmed_valid(init);
        let t = text::trim(pieces.last());
        lemma_trim_idempotent(pieces.last());
        lemma_trim_subrange_free(pieces.last(), '/');
        lemma_trim_subrange_free(pieces.last(), '\\');
    }
}

pub proof fn lemma_replace_bs_free(s: Seq<char>)
    ensures
        !replace_bs(s).contains('\\'),
        replace_bs(s).len() == s.len(),
{
    if replace_bs(s).contains('\\') {
        let j = choose|j: int| 0 <= j < replace_bs(s).len() && replace_bs(s)[j] == '\\';
    }
}

/// The components of a normalized path are valid pieces.
pub proof fn lemma_components_valid(s: Seq<char>)
    requires
        !s.contains('\\'),
    ensures
        valid_pieces(components(s)),
{
    lemma_split_sep_free(s, '/', '/');
    lemma_split_sep_free(s, '/', '\\');
    lemma_nonempty_trimmed_valid(text::split_by(s, '/'));
}

pub proof fn lemma_normalized_has_no_backslash(s: Seq<char>)
    ensures
        !normalize_path(s).contains('\\'),
{
    lemma_replace_bs_free(text::trim_by(text::trim(s), TrimClass::Slashes));
}

/// `last_slash` of `a + "/" + b` with a slash-free `b`.
pub proof fn lemma_last_slash_concat(a: Seq<char>, b: Seq<char>)
    requires
        !b.contains('/'),
    ensures
        last_slash(a + seq!['/'] + b) == Some(a.len() as int),
        slash_count(a + seq!['/'] + b) == slash_count(a) + 1,
    decreases b.len(),
{
    let s = a + seq!['/'] + b;
    if b.len() == 0 {
        assert(s.drop_last() =~= a);
    } else {
        let b2 = b.drop_last();
        assert(!b2.contains('/')) by {
            if b2.contains('/') {
                let j = choose|j: int| 0 <= j < b2.len() && b2[j] == '/';
                assert(b[j] == '/');
            }
        }
        assert(b.last() != '/') by {
            assert(b[b.len() - 1] == b.last());
        }
        lemma_last_slash_concat(a, b2);
        assert(s.drop_last() =~= a + seq!['/'] + b2);
    }
}

pub proof fn lemma_last_slash_free(b: Seq<char>)
    requires
        !b.contains('/'),
    ensures
        last_slash(b) == None::<int>,
        slash_count(b) == 0,
    decreases b.len(),
{
    if b.len() > 0 {
        let b2 = b.drop_last();
        assert(!b2.contains('/')) by {
            if b2.contains('/') {
                let j = choose|j: int| 0 <= j < b2.len() && b2[j] == '/';
                assert(b[j] == '/');
            }
        }
        assert(b.last() != '/') by {
            assert(b[b.len() - 1] == b.last());
        }
        lemma_last_slash_free(b2);
    }
}

pub proof fn lemma_last_slash_bound(s: Seq<char>)
    ensures
        last_slash(s) matches Some(i) ==> 0 <= i < s.len() && s[i] == '/',
    decreases s.len(),
{
    if s.len() > 0 && s.last() != '/' {
        lemma_last_slash_bound(s.drop_last());
    }
}

/// The text of a key made of valid pieces determines its parent, name and level.
pub proof fn lemma_prefix_key(c: Seq<Seq<char>>, k: int)
    requires
        valid_pieces(c),
        1 <= k <= c.len(),
    ensures
        key_parent(prefix_key(c, k)) == prefix_key(c, k - 1),
        key_name(prefix_key(c, k)) == c[k - 1],
        key_level(prefix_key(c, k)) == k,
        prefix_key(c, k).len() > 0,
        (last_slash(prefix_key(c, k)) is None) == (k == 1),
    decreases k,
{
    let ck = c.take(k);
    assert(ck.drop_last() =~= c.take(k - 1));
    assert(ck.last() == c[k - 1]);
    assert(valid_piece(c[k - 1]));
    if k == 1 {
        assert(prefix_key(c, 1) == c[0]);
        lemma_last_slash_free(c[0]);
        assert(prefix_key(c, 0) =~= Seq::<char>::empty());
    } else {
        lemma_prefix_key(c, k - 1);
        let a = prefix_key(c, k - 1);
        assert(prefix_key(c, k) == a + seq!['/'] + c[k - 1]);
        lemma_last_slash_concat(a, c[k - 1]);
        assert((a + seq!['/'] + c[k - 1]).take(a.len() as int) =~= a);
        assert((a + seq!['/'] + c[k - 1]).skip(a.len() as int + 1) =~= c[k - 1]);
    }
}

/// Every key of a node is a fixed point of `normalize_path`.
pub proof fn lemma_prefix_key_normal(c: Seq<Seq<char>>, k: int)
    requires
        valid_pieces(c),
        1 <= k <= c.len(),
    ensures
        normal_key(prefix_key(c, k)),
        !prefix_key(c, k).contains('\\'),
        prefix_key(c, k)[0] == c[0][0],
        prefix_key(c, k).last() == c[k - 1].last(),
    decreases k,
{
    let key = prefix_key(c, k);
    let ck = c.take(k);
    assert(ck.drop_last() =~= c.take(k - 1));
    assert(valid_piece(c[k - 1]));
    assert(valid_piece(c[0]));
    if k == 1 {
        assert(key == c[0]);
    } else {
        lemma_prefix_key_normal(c, k - 1);
        let a = prefix_key(c, k - 1);
        assert(key == a + seq!['/'] + c[k - 1]);
        assert(key[0] == a[0]);
        assert(key.last() == c[k - 1].last());
        assert(!key.contains('\\')) by {
            if key.contains('\\') {
                let j = choose|j: int| 0 <= j < key.len() && key[j] == '\\';
                if j < a.len() {
                    assert(a[j] == '\\');
                } else if j > a.len() {
                    assert(c[k - 1][j - a.len() - 1] == '\\');
                }
            }
        }
    }
    // The ends are neither white space nor slashes.
    let p0 = c[0];
    let pl = c[k - 1];
    lemma_trim_by_ends(p0, TrimClass::Whitespace);
    lemma_trim_by_ends(pl, TrimClass::Whitespace);
    assert(p0[0] != '/' && p0[0] != '\\') by {
        assert(p0.contains(p0[0]));
    }
    assert(pl.last() != '/' && pl.last() != '\\') by {
        assert(pl.contains(pl[pl.len() - 1]));
    }
    lemma_trim_by_fixed(key, TrimClass::Whitespace);
    lemma_trim_by_fixed(key, TrimClass::Slashes);
    assert(replace_bs(key) =~= key) by {
        assert forall|j: int| 0 <= j < key.len() implies key[j] != '\\' by {
            assert(key.contains(key[j]));
        }
    }
}

/// A non-empty normal key does not start with `/`.
pub proof fn lemma_normal_key_first(k: Seq<char>)
    requires
        normal_key(k),
        k.len() > 0,
    ensures
        k[0] != '/',
{
    let t = text::trim_by(text::trim(k), TrimClass::Slashes);
    lemma_trim_by_ends(text::trim(k), TrimClass::Slashes);
    assert(replace_bs(t).len() == t.len());
    assert(k[0] == bs_to_slash(t[0]));
}

/// A text that does not start with `/` has fewer slashes than characters.
pub proof fn lemma_slash_count_lt(s: Seq<char>)
    requires
        s.len() > 0,
        s[0] != '/',
    ensures
        slash_count(s) < s.len(),
    decreases s.len(),
{
    if s.len() > 1 {
        assert(s.drop_last()[0] == s[0]);
        lemma_slash_count_lt(s.drop_last());
    } else {
        assert(s.drop_last().len() == 0);
        assert(slash_count(s.drop_last()) == 0);
        assert(s.last() == s[0]);
    }
}

/// The parent of a path is shorter than the path.
pub proof fn lemma_parent_path_shorter(s: Seq<char>)
    ensures
        parent_path(s) matches Some(p) ==> p.len() < s.len(),
{
    let t = text::trim(s);
    lemma_trim_by_ends(s, TrimClass::Whitespace);
    lemma_trim_by_ends(t, TrimClass::Slashes);
    let n = normalize_path(s);
    assert(n.len() <= s.len());
    lemma_last_slash_bound(n);
}

/// The parent key of a non-empty key is shorter than it.
pub proof fn lemma_key_parent_shorter(k: Seq<char>)
    requires
        k.len() > 0,
    ensures
        key_parent(k).len() < k.len(),
{
    lemma_last_slash_bound(k);
}

/// Normalizing never lengthens a path.
pub proof fn lemma_normalize_len(s: Seq<char>)
    ensures
        normalize_path(s).len() <= s.len(),
{
    lemma_trim_by_ends(s, TrimClass::Whitespace);
    lemma_trim_by_ends(text::trim(s), TrimClass::Slashes);
}

// ---------------------------------------------------------------------------
// Executable helpers
// ---------------------------------------------------------------------------

pub fn replace_bs_chars(v: &[char]) -> (r: Vec<char>)
    ensures
        r@ == replace_bs(v@),
{
    let mut r: Vec<char> = Vec::new();
    for i in 0..v.len()
        invariant
            r@ == replace_bs(v@.take(i as int)),
    {
        let c = v[i];
        r.push(if c == '\\' { '/' } else { c });
        assert(replace_bs(v@.take(i + 1)) =~= replace_bs(v@.take(i as int)).push(bs_to_slash(c)));
    }
    assert(v@.take(v@.len() as int) =~= v@);
    r
}

/// `normalize_relative_path` on characters.
pub fn normalize_chars(v: &[char]) -> (r: Vec<char>)
    ensures
        r@ == normalize_path(v@),
{
    let t = trim_chars(v, TrimClass::Whitespace);
    let u = trim_chars(&t, TrimClass::Slashes);
    replace_bs_chars(&u)
}

/// Trims white space, trims `/` and `\` at both ends, and turns `\` into `/`.
pub fn normalize_relative_path(relative_path: &str) -> (r: String)
    ensures
        r@ == normalize_path(relative_path@),
{
    let v = chars_of(relative_path);
    let n = normalize_chars(&v);
    string_from_chars(&n)
}

/// Splits on `/`, trims the parts, keeps the non-empty ones.
pub fn components_chars(v: &[char]) -> (r: Vec<Vec<char>>)
    ensures
        r@.len() == components(v@).len(),
        forall|i: int| 0 <= i < r@.len() ==> #[trigger] r@[i]@ == components(v@)[i],
{
    let pieces = split_chars(v, '/');
    let ghost sp = text::split_by(v@, '/');
    let mut r: Vec<Vec<char>> = Vec::new();
    for i in 0..pieces.len()
        invariant
            pieces@.len() == sp.len(),
            sp == text::split_by(v@, '/'),
            forall|k: int| 0 <= k < pieces@.len() ==> #[trigger] pieces@[k]@ == sp[k],
            r@.len() == nonempty_trimmed(sp.take(i as int)).len(),
            forall|k: int|
                0 <= k < r@.len() ==> #[trigger] r@[k]@ == nonempty_trimmed(sp.take(i as int))[k],
    {
        proof {
            assert(sp.take(i + 1).drop_last() =~= sp.take(i as int));
        }
        let t = trim_chars(&pieces[i], TrimClass::Whitespace);
        if t.len() > 0 {
            r.push(t);
        }
    }
    proof {
        assert(sp.take(sp.len() as int) =~= sp);
    }
    r
}

/// The components of a relative path as strings.
pub fn path_components(relative_path: &str) -> (r: Vec<String>)
    ensures
        r@.len() == components(relative_path@).len(),
        forall|i: int| 0 <= i < r@.len() ==> #[trigger] r@[i]@ == components(relative_path@)[i],
{
    let v = chars_of(relative_path);
    let cs = components_chars(&v);
    let mut r: Vec<String> = Vec::new();
    for i in 0..cs.len()
        invariant
            cs@.len() == components(v@).len(),
            v@ == relative_path@,
            forall|k: int| 0 <= k < cs@.len() ==> #[trigger] cs@[k]@ == components(v@)[k],
            r@.len() == i,
            forall|k: int| 0 <= k < i ==> #[trigger] r@[k]@ == components(v@)[k],
    {
        r.push(string_from_chars(&cs[i]));
    }
    r
}

/// Joins components with `/`.
pub fn join_path_components(components: &[String]) -> (r: String)
    ensures
        r@ == join_path(components@.map_values(|s: String| s@)),
{
    let mut parts: Vec<Vec<char>> = Vec::new();
    for i in 0..components.len()
        invariant
            parts@.len() == i,
            forall|k: int| 0 <= k < i ==> #[trigger] parts@[k]@ == components@[k]@,
    {
        parts.push(chars_of(components[i].as_str()));
    }
    let sep = vec!['/'];
    assert(sep@ =~= seq!['/']);
    let j = join_chars(&parts, &sep);
    assert(parts@.map_values(|p: Vec<char>| p@) =~= components@.map_values(|s: String| s@));
    string_from_chars(&j)
}

pub fn last_slash_exec(v: &[char]) -> (r: Option<usize>)
    ensures
        r matches Some(i) ==> last_slash(v@) == Some(i as int),
        r is None ==> last_slash(v@) is None,
{
    let mut i = v.len();
    assert(v@.take(i as int) =~= v@);
    while i > 0
        invariant
            i <= v@.len(),
            last_slash(v@) == last_slash(v@.take(i as int)),
        decreases i,
    {
        proof {
            assert(v@.take(i as int).drop_last() =~= v@.take(i - 1));
        }
        if v[i - 1] == '/' {
            return Some(i - 1);
        }
        i = i - 1;
    }
    proof {
        assert(v@.take(0) =~= Seq::<char>::empty());
    }
    None
}

/// Parent of a relative path: everything before the last `/` of its normal form.
pub fn parent_relative_path(relative_path: &str) -> (r: Option<String>)
    ensures
        r matches Some(p) ==> parent_path(relative_path@) == Some(p@),
        r is None ==> parent_path(relative_path@) is None,
{
    let v = chars_of(relative_path);
    let n = normalize_chars(&v);
    if n.len() == 0 {
        return None;
    }
    match last_slash_exec(&n) {
        Some(i) => {
            proof {
                lemma_last_slash_bound(n@);
            }
            let p = slice_chars(&n, 0, i);
            Some(string_from_chars(&p))
        },
        None => None,
    }
}

/// Whether any component of a relative path starts with `.`.
pub fn is_hidden_relative_path(relative_path: &str) -> (r: bool)
    ensures
        r == is_hidden_path(relative_path@),
{
    let v = chars_of(relative_path);
    let t = trim_chars(&v, TrimClass::Slashes);
    let u = replace_bs_chars(&t);
    let pieces = split_chars(&u, '/');
    let ghost sp = text::split_by(u@, '/');
    for i in 0..pieces.len()
        invariant
            sp == text::split_by(replace_bs(text::trim_by(relative_path@, TrimClass::Slashes)), '/'),
            pieces@.len() == sp.len(),
            forall|k: int| 0 <= k < pieces@.len() ==> #[trigger] pieces@[k]@ == sp[k],
            forall|k: int|
                0 <= k < i ==> !(text::trim(#[trigger] sp[k]).len() > 0 && text::trim(sp[k])[0] == '.'),
    {
        let p = trim_chars(&pieces[i], TrimClass::Whitespace);
        if p.len() > 0 && p[0] == '.' {
            return true;
        }
    }
    false
}

} // verus!
