//! What the rows of the two tree projections are.

use vstd::prelude::*;
use crate::compare_foundation::{
    CompareFoundation, CompareNodeKind, child_keys, lemma_node_facts, status_token,
};
use crate::compare_tree::{compare_tree_rows_spec, forest_rows, item_rows, tree_row};
use crate::navigator_tree::{
    NavRowView, nav_forest_rows, nav_forest_sel, nav_item_rows, nav_item_sel, nav_kids, nav_node,
    nav_root_kids, nav_row_of, status_filter_ok, status_filter_of, lemma_status_filter_names,
};
use crate::paths;
use crate::text;
use crate::text::TrimClass;

verus! {

// ---------------------------------------------------------------------------
// The navigator tree
// ---------------------------------------------------------------------------

/// Every row that cannot be expanded stands for a kept entry: it has a
/// source index and a status that passes the filter.
pub open spec fn leaves_pass_filter(rows: Seq<NavRowView>, flt: Seq<char>) -> bool {
    forall|i: int|
        0 <= i < rows.len() ==> (#[trigger] rows[i]).is_expandable || (rows[i].source_index is Some
            && status_filter_ok(rows[i].display_status, flt))
}

/// Each kept child carries the display status that the filtered tree gives it.
proof fn lemma_kept_kid_status(
    f: CompareFoundation,
    cs: Seq<Seq<char>>,
    plen: int,
    show: bool,
    flt: Seq<char>,
    lim: int,
)
    requires
        plen <= lim,
    ensures
        forall|i: int|
            0 <= i < nav_kids(f, cs, plen, show, flt, lim).len() ==> nav_node(
                f,
                (#[trigger] nav_kids(f, cs, plen, show, flt, lim)[i]).0,
                plen,
                show,
                flt,
                lim,
            ) == Some(nav_kids(f, cs, plen, show, flt, lim)[i].1),
    decreases cs.len(),
{
    reveal(nav_kids);
    reveal(nav_node);
    if cs.len() > 0 {
        lemma_kept_kid_status(f, cs.drop_first(), plen, show, flt, lim);
        let rest = nav_kids(f, cs.drop_first(), plen, show, flt, lim);
        let ks = nav_kids(f, cs, plen, show, flt, lim);
        match nav_node(f, cs[0], plen, show, flt, lim) {
            Some(st) => {
                assert(ks == seq![(cs[0], st)] + rest);
                assert forall|i: int| 0 <= i < ks.len() implies nav_node(
                    f,
                    (#[trigger] ks[i]).0,
                    plen,
                    show,
                    flt,
                    lim,
                ) == Some(ks[i].1) by {
                    if i > 0 {
                        assert(ks[i] == rest[i - 1]);
                    }
                }
            },
            None => {
                assert(ks == rest);
            },
        }
    }
}

proof fn lemma_nav_item_leaves(
    f: CompareFoundation,
    key: Seq<char>,
    status: Seq<char>,
    plen: int,
    show: bool,
    flt: Seq<char>,
    ov: Map<Seq<char>, bool>,
    visible: bool,
    lim: int,
)
    requires
        plen <= lim,
        nav_node(f, key, plen, show, flt, lim) == Some(status),
    ensures
        leaves_pass_filter(nav_item_rows(f, key, status, plen, show, flt, ov, visible, lim), flt),
    decreases lim - plen, 0int,
{
    reveal(nav_node);
    reveal(nav_kids);
    let n = f.node_of(paths::normalize_path(key));
    let nl = n.relative_path@.len() as int;
    if plen < nl && nl <= lim {
        let ks = nav_kids(f, child_keys(n), nl, show, flt, lim);
        lemma_kept_kid_status(f, child_keys(n), nl, show, flt, lim);
        let expandable = ks.len() > 0;
        let expanded = expandable && crate::compare_tree::expansion_of(
            ov,
            n.relative_path@,
            n.path_depth,
        );
        lemma_nav_forest_leaves(f, ks, nl, show, flt, ov, visible && expanded, lim);
        let own = if visible {
            seq![nav_row_of(n, status, expandable, expanded)]
        } else {
            Seq::empty()
        };
        let rest = nav_forest_rows(f, ks, nl, show, flt, ov, visible && expanded, lim);
        let all = own + rest;
        assert(all == nav_item_rows(f, key, status, plen, show, flt, ov, visible, lim));
        if !expandable {
            assert(f.has_key(paths::normalize_path(key)));
            assert(n.kind != CompareNodeKind::Root);
            assert(n.source_index is Some && status_filter_ok(status, flt));
        }
        assert forall|i: int| 0 <= i < all.len() implies (#[trigger] all[i]).is_expandable || (
        all[i].source_index is Some && status_filter_ok(all[i].display_status, flt)) by {
            if i >= own.len() {
                assert(all[i] == rest[i - own.len()]);
            } else {
                assert(all[i] == own[i]);
                assert(all[i] == nav_row_of(n, status, expandable, expanded));
            }
        }
    }
}

proof fn lemma_nav_forest_leaves(
    f: CompareFoundation,
    ks: Seq<(Seq<char>, Seq<char>)>,
    plen: int,
    show: bool,
    flt: Seq<char>,
    ov: Map<Seq<char>, bool>,
    visible: bool,
    lim: int,
)
    requires
        plen <= lim,
        forall|i: int|
            0 <= i < ks.len() ==> nav_node(f, (#[trigger] ks[i]).0, plen, show, flt, lim) == Some(
                ks[i].1,
            ),
    ensures
        leaves_pass_filter(nav_forest_rows(f, ks, plen, show, flt, ov, visible, lim), flt),
    decreases lim - plen, ks.len(),
{
    if ks.len() > 0 {
        assert(nav_node(f, ks[0].0, plen, show, flt, lim) == Some(ks[0].1));
        lemma_nav_item_leaves(f, ks[0].0, ks[0].1, plen, show, flt, ov, visible, lim);
        let tail = ks.drop_first();
        assert forall|i: int| 0 <= i < tail.len() implies nav_node(
            f,
            (#[trigger] tail[i]).0,
            plen,
            show,
            flt,
            lim,
        ) == Some(tail[i].1) by {
            assert(tail[i] == ks[i + 1]);
        }
        lemma_nav_forest_leaves(f, tail, plen, show, flt, ov, visible, lim);
        let first = nav_item_rows(f, ks[0].0, ks[0].1, plen, show, flt, ov, visible, lim);
        let rest = nav_forest_rows(f, tail, plen, show, flt, ov, visible, lim);
        let all = first + rest;
        assert forall|i: int| 0 <= i < all.len() implies (#[trigger] all[i]).is_expandable || (
        all[i].source_index is Some && status_filter_ok(all[i].display_status, flt)) by {
            if i < first.len() {
                assert(all[i] == first[i]);
            } else {
                assert(all[i] == rest[i - first.len()]);
            }
        }
    }
}

/// Every navigator row that cannot be expanded stands for an entry whose
/// status passes the status filter; the rows with children kept are the
/// directories above such entries.
pub proof fn lemma_navigator_leaves_pass_filter(
    f: CompareFoundation,
    show: bool,
    flt: Seq<char>,
    ov: Map<Seq<char>, bool>,
)
    requires
        f.wf(),
    ensures
        nav_root_kids(f, show, flt) matches Some(ks) ==> leaves_pass_filter(
            nav_forest_rows(f, ks, 0, show, flt, ov, true, f.max_key_len()),
            flt,
        ),
{
    if let Some(ks) = nav_root_kids(f, show, flt) {
        let lim = f.max_key_len();
        let root = f.node_of(Seq::<char>::empty());
        crate::compare_foundation::lemma_max_key_len(f);
        assert(lim >= 0) by {
            crate::compare_foundation::lemma_root_present(f);
            lemma_node_facts(f, Seq::<char>::empty());
        }
        lemma_kept_kid_status(f, child_keys(root), 0, show, flt, lim);
        lemma_nav_forest_leaves(f, ks, 0, show, flt, ov, true, lim);
    }
}

/// With one of the filter names `different`, `equal`, `left-only` or
/// `right-only` (in any letter case, with any surrounding white space), every
/// navigator row that cannot be expanded is an entry whose status is that
/// name, ignoring letter case.
pub proof fn lemma_named_filter_keeps_that_status(
    f: CompareFoundation,
    raw: Seq<char>,
    show: bool,
    ov: Map<Seq<char>, bool>,
)
    requires
        f.wf(),
        ({
            let l = text::lower_seq(text::trim(raw));
            l == "different"@ || l == "equal"@ || l == "left-only"@ || l == "right-only"@
        }),
    ensures
        nav_root_kids(f, show, status_filter_of(raw)) matches Some(ks) ==> ({
            let rows = nav_forest_rows(f, ks, 0, show, status_filter_of(raw), ov, true, f.max_key_len());
            forall|i: int|
                0 <= i < rows.len() ==> (#[trigger] rows[i]).is_expandable || (rows[i].source_index is Some
                    && text::eq_ignore_case(rows[i].display_status, text::lower_seq(text::trim(raw))))
        }),
{
    let flt = status_filter_of(raw);
    lemma_status_filter_names(raw);
    lemma_navigator_leaves_pass_filter(f, show, flt, ov);
    reveal_strlit("all");
    reveal_strlit("different");
    reveal_strlit("equal");
    reveal_strlit("left-only");
    reveal_strlit("right-only");
    assert(flt != "all"@) by {
        assert(flt[0] != "all"@[0] || flt.len() != "all"@.len());
    }
}

/// `k` names a file entry that the navigator keeps: a file node with source
/// index `i`, hidden only when hidden files are shown, and, when it has no
/// children, with a status that passes the filter.
pub open spec fn kept_file_entry(
    f: CompareFoundation,
    k: Seq<char>,
    i: usize,
    show: bool,
    flt: Seq<char>,
) -> bool {
    let n = f.node_of(k);
    &&& f.has_key(k)
    &&& n.kind == CompareNodeKind::File
    &&& n.source_index == Some(i)
    &&& (show || !paths::is_hidden_path(n.relative_path@))
    &&& (child_keys(n).len() == 0 ==> status_filter_ok(status_token(n.base_status), flt))
}

/// Every index of `sel` is the source index of a kept file entry.
pub open spec fn selectable_sound(
    f: CompareFoundation,
    sel: Set<usize>,
    show: bool,
    flt: Seq<char>,
) -> bool {
    forall|i: usize| #[trigger] sel.contains(i) ==> exists|k: Seq<char>| kept_file_entry(f, k, i, show, flt)
}

proof fn lemma_nav_item_sel_sound(
    f: CompareFoundation,
    key: Seq<char>,
    plen: int,
    show: bool,
    flt: Seq<char>,
    lim: int,
)
    requires
        plen <= lim,
        nav_node(f, key, plen, show, flt, lim) is Some,
    ensures
        selectable_sound(f, nav_item_sel(f, key, plen, show, flt, lim), show, flt),
    decreases lim - plen, 0int,
{
    reveal(nav_node);
    reveal(nav_kids);
    let k = paths::normalize_path(key);
    let n = f.node_of(k);
    let nl = n.relative_path@.len() as int;
    if plen < nl && nl <= lim {
        let ks = nav_kids(f, child_keys(n), nl, show, flt, lim);
        lemma_kept_kid_status(f, child_keys(n), nl, show, flt, lim);
        lemma_nav_forest_sel_sound(f, ks, nl, show, flt, lim);
        let rest = nav_forest_sel(f, ks, nl, show, flt, lim);
        let own = if n.kind == CompareNodeKind::File && n.source_index is Some {
            set![n.source_index->0]
        } else {
            Set::empty()
        };
        assert(nav_item_sel(f, key, plen, show, flt, lim) == own.union(rest));
        if n.kind == CompareNodeKind::File && n.source_index is Some {
            if child_keys(n).len() == 0 {
                assert(ks.len() == 0);
            }
            assert(kept_file_entry(f, k, n.source_index->0, show, flt));
        }
    }
}

proof fn lemma_nav_forest_sel_sound(
    f: CompareFoundation,
    ks: Seq<(Seq<char>, Seq<char>)>,
    plen: int,
    show: bool,
    flt: Seq<char>,
    lim: int,
)
    requires
        plen <= lim,
        forall|i: int|
            0 <= i < ks.len() ==> nav_node(f, (#[trigger] ks[i]).0, plen, show, flt, lim) == Some(
                ks[i].1,
            ),
    ensures
        selectable_sound(f, nav_forest_sel(f, ks, plen, show, flt, lim), show, flt),
    decreases lim - plen, ks.len(),
{
    if ks.len() > 0 {
        assert(nav_node(f, ks[0].0, plen, show, flt, lim) == Some(ks[0].1));
        lemma_nav_item_sel_sound(f, ks[0].0, plen, show, flt, lim);
        let tail = ks.drop_first();
        assert forall|i: int| 0 <= i < tail.len() implies nav_node(
            f,
            (#[trigger] tail[i]).0,
            plen,
            show,
            flt,
            lim,
        ) == Some(tail[i].1) by {
            assert(tail[i] == ks[i + 1]);
        }
        lemma_nav_forest_sel_sound(f, tail, plen, show, flt, lim);
    }
}

/// Every source index that the navigator tree offers for selection belongs to
/// a file entry that it keeps: a file node, hidden only when hidden files are
/// shown, whose status passes the filter when it has no children.
pub proof fn lemma_navigator_selectable_are_kept_files(
    f: CompareFoundation,
    show: bool,
    flt: Seq<char>,
)
    requires
        f.wf(),
    ensures
        nav_root_kids(f, show, flt) matches Some(ks) ==> selectable_sound(
            f,
            nav_forest_sel(f, ks, 0, show, flt, f.max_key_len()),
            show,
            flt,
        ),
{
    if let Some(ks) = nav_root_kids(f, show, flt) {
        let lim = f.max_key_len();
        let root = f.node_of(Seq::<char>::empty());
        crate::compare_foundation::lemma_max_key_len(f);
        assert(lim >= 0) by {
            crate::compare_foundation::lemma_root_present(f);
            lemma_node_facts(f, Seq::<char>::empty());
        }
        lemma_kept_kid_status(f, child_keys(root), 0, show, flt, lim);
        lemma_nav_forest_sel_sound(f, ks, 0, show, flt, lim);
    }
}

/// A non-empty normal key has no slash at either end and no backslash, so
/// trimming slashes and turning backslashes into slashes leave it as it is.
proof fn lemma_normal_key_fixed(k: Seq<char>)
    requires
        paths::normal_key(k),
        k.len() > 0,
    ensures
        text::trim_by(k, TrimClass::Slashes) == k,
        paths::replace_bs(k) == k,
{
    let t = text::trim_by(text::trim(k), TrimClass::Slashes);
    paths::lemma_trim_by_ends(text::trim(k), TrimClass::Slashes);
    paths::lemma_replace_bs_free(t);
    paths::lemma_normalized_has_no_backslash(k);
    assert(k.len() == t.len());
    assert(k[0] == paths::bs_to_slash(t[0]));
    assert(k[k.len() - 1] == paths::bs_to_slash(t[t.len() - 1]));
    paths::lemma_trim_by_fixed(k, TrimClass::Slashes);
    assert(paths::replace_bs(k) =~= k) by {
        assert forall|j: int| 0 <= j < k.len() implies k[j] != '\\' by {
            assert(k.contains(k[j]));
        }
    }
}

/// Appending text keeps every piece of a split but the last.
proof fn lemma_split_extend(s: Seq<char>, t: Seq<char>, sep: char)
    ensures
        text::split_by(s + t, sep).len() >= text::split_by(s, sep).len(),
        forall|m: int|
            0 <= m < text::split_by(s, sep).len() - 1 ==> #[trigger] text::split_by(s + t, sep)[m]
                == text::split_by(s, sep)[m],
    decreases t.len(),
{
    text::lemma_split_nonempty(s, sep);
    if t.len() == 0 {
        assert(s + t =~= s);
    } else {
        let u = s + t.drop_last();
        lemma_split_extend(s, t.drop_last(), sep);
        assert((s + t).drop_last() =~= u);
        assert((s + t).last() == t.last());
        text::lemma_split_nonempty(u, sep);
        let init = text::split_by(u, sep);
        assert forall|m: int|
            0 <= m < text::split_by(s, sep).len() - 1 implies #[trigger] text::split_by(s + t, sep)[m]
            == text::split_by(s, sep)[m] by {
            assert(text::split_by(u, sep)[m] == text::split_by(s, sep)[m]);
        }
    }
}

/// A path under a hidden directory is hidden too.
proof fn lemma_parent_hidden(x: Seq<char>)
    requires
        paths::normal_key(x),
        paths::key_parent(x).len() > 0,
        paths::normal_key(paths::key_parent(x)),
        paths::is_hidden_path(paths::key_parent(x)),
    ensures
        paths::is_hidden_path(x),
{
    let p = paths::key_parent(x);
    paths::lemma_last_slash_bound(x);
    let j = paths::last_slash(x)->0;
    lemma_normal_key_fixed(x);
    lemma_normal_key_fixed(p);
    let q = x.skip(j + 1);
    assert(x =~= p.push('/') + q);
    lemma_split_extend(p.push('/'), q, '/');
    assert(p.push('/').drop_last() =~= p);
    let sp = text::split_by(p, '/');
    let sx = text::split_by(x, '/');
    assert(text::split_by(p.push('/'), '/') == sp.push(Seq::<char>::empty()));
    let m = choose|m: int|
        0 <= m < sp.len() && text::trim(#[trigger] sp[m]).len() > 0 && text::trim(sp[m])[0] == '.';
    assert(sx[m] == sp[m]);
}

/// A kept child whose selectable set holds `i` puts `i` in the selectable set
/// of the kept children of its list.
proof fn lemma_kids_sel_contains(
    f: CompareFoundation,
    cs: Seq<Seq<char>>,
    c: Seq<char>,
    i: usize,
    plen: int,
    show: bool,
    flt: Seq<char>,
    lim: int,
)
    requires
        plen <= lim,
        cs.contains(c),
        nav_node(f, c, plen, show, flt, lim) is Some,
        nav_item_sel(f, c, plen, show, flt, lim).contains(i),
    ensures
        nav_forest_sel(f, nav_kids(f, cs, plen, show, flt, lim), plen, show, flt, lim).contains(i),
    decreases cs.len(),
{
    reveal(nav_kids);
    reveal(nav_node);
    let k = choose|k: int| 0 <= k < cs.len() && cs[k] == c;
    let rest = nav_kids(f, cs.drop_first(), plen, show, flt, lim);
    let ks = nav_kids(f, cs, plen, show, flt, lim);
    if cs[0] == c {
        let st = nav_node(f, c, plen, show, flt, lim)->0;
        assert(ks == seq![(c, st)] + rest);
        assert(ks[0].0 == c);
    } else {
        assert(cs.drop_first()[k - 1] == c);
        lemma_kids_sel_contains(f, cs.drop_first(), c, i, plen, show, flt, lim);
        match nav_node(f, cs[0], plen, show, flt, lim) {
            Some(st) => {
                assert(ks == seq![(cs[0], st)] + rest);
                assert(ks.drop_first() =~= rest);
            },
            None => {},
        }
    }
}

/// The selectable set of a kept node at `x` holds `i`, and so does that of the
/// whole navigator tree.
#[verifier::spinoff_prover]
proof fn lemma_sel_up(f: CompareFoundation, x: Seq<char>, i: usize, show: bool, flt: Seq<char>)
    requires
        f.wf(),
        f.has_key(x),
        x.len() > 0,
        show || !paths::is_hidden_path(x),
        nav_node(f, x, paths::key_parent(x).len() as int, show, flt, f.max_key_len()) is Some,
        nav_item_sel(f, x, paths::key_parent(x).len() as int, show, flt, f.max_key_len()).contains(i),
    ensures
        nav_root_kids(f, show, flt) matches Some(ks) && nav_forest_sel(
            f,
            ks,
            0,
            show,
            flt,
            f.max_key_len(),
        ).contains(i),
    decreases x.len(),
{
    let lim = f.max_key_len();
    let p = paths::key_parent(x);
    paths::lemma_key_parent_shorter(x);
    crate::compare_foundation::lemma_parent_present(f, x);
    lemma_node_facts(f, x);
    lemma_node_facts(f, p);
    let pn = f.node_of(p);
    let j = f.index_of(x);
    assert(paths::key_parent(f.key_at(j)) == pn.relative_path@);
    assert(child_keys(pn).contains(f.key_at(j)));
    lemma_kids_sel_contains(f, child_keys(pn), x, i, p.len() as int, show, flt, lim);
    let kids = nav_kids(f, child_keys(pn), p.len() as int, show, flt, lim);
    assert(kids.len() > 0);
    if p.len() == 0 {
        assert(p =~= Seq::<char>::empty());
        paths::lemma_normalize_len(p);
        assert(paths::normalize_path(p) =~= p);
        crate::compare_foundation::lemma_root_present(f);
        assert(pn.kind == CompareNodeKind::Root);
        assert(nav_node(f, Seq::<char>::empty(), -1, show, flt, lim) is Some) by {
            reveal(nav_node);
        }
    } else {
        let pp = paths::key_parent(p);
        paths::lemma_key_parent_shorter(p);
        if !show && paths::is_hidden_path(p) {
            lemma_parent_hidden(x);
        }
        assert(paths::normalize_path(p) == p);
        assert(pn.kind != CompareNodeKind::Root);
        assert(nav_node(f, p, pp.len() as int, show, flt, lim) is Some) by {
            reveal(nav_node);
        }
        assert(nav_item_sel(f, p, pp.len() as int, show, flt, lim).contains(i));
        lemma_sel_up(f, p, i, show, flt);
    }
}

/// Every file entry that the navigator keeps is offered for selection: a file
/// node without children, with a source index, hidden only when hidden files
/// are shown, and whose status passes the filter, puts its source index in the
/// selectable set, whether or not its row is visible.
pub proof fn lemma_navigator_kept_files_selectable(
    f: CompareFoundation,
    show: bool,
    flt: Seq<char>,
    k: Seq<char>,
    i: usize,
)
    requires
        f.wf(),
        kept_file_entry(f, k, i, show, flt),
        child_keys(f.node_of(k)).len() == 0,
    ensures
        nav_root_kids(f, show, flt) matches Some(ks) && nav_forest_sel(
            f,
            ks,
            0,
            show,
            flt,
            f.max_key_len(),
        ).contains(i),
{
    reveal(nav_node);
    reveal(nav_kids);
    let lim = f.max_key_len();
    let n = f.node_of(k);
    lemma_node_facts(f, k);
    assert(k.len() > 0);
    let p = paths::key_parent(k);
    paths::lemma_key_parent_shorter(k);
    assert(paths::normalize_path(k) == k);
    assert(nav_kids(f, child_keys(n), k.len() as int, show, flt, lim).len() == 0);
    assert(nav_node(f, k, p.len() as int, show, flt, lim) is Some);
    assert(nav_item_sel(f, k, p.len() as int, show, flt, lim).contains(i));
    lemma_sel_up(f, k, i, show, flt);
}

// ---------------------------------------------------------------------------
// The Compare View tree
// ---------------------------------------------------------------------------

/// `k` names a node strictly below the node at `a`.
pub open spec fn strictly_below(a: Seq<char>, k: Seq<char>) -> bool {
    k.len() > a.len() && (a.len() == 0 || (k.take(a.len() as int) == a && k[a.len() as int]
        == '/'))
}

/// `k` names a node that the tree below the anchor `a` shows: an existing
/// node strictly below `a`, every node between them an expanded directory,
/// and not hidden unless hidden entries are shown.
pub open spec fn shown_node(
    f: CompareFoundation,
    a: Seq<char>,
    k: Seq<char>,
    ad: u16,
    show: bool,
    ov: Map<Seq<char>, bool>,
) -> bool {
    &&& f.has_key(k)
    &&& strictly_below(a, k)
    &&& opened_below(f, a, k, ad, ov)
    &&& (show || !paths::is_hidden_path(k))
}

/// Each row is the row of a node that the tree below the anchor `a` shows:
/// its directory, expandable and expanded flags and its depth below the
/// anchor as `tree_row` gives them.
pub open spec fn rows_of_descendants(
    f: CompareFoundation,
    rows: Seq<(Seq<char>, u16, bool, bool, bool)>,
    a: Seq<char>,
    ad: u16,
    show: bool,
    ov: Map<Seq<char>, bool>,
) -> bool {
    forall|i: int|
        0 <= i < rows.len() ==> exists|k: Seq<char>|
            #![trigger f.node_of(k)]
            shown_node(f, a, k, ad, show, ov) && #[trigger] rows[i] == tree_row(
                f.node_of(k),
                k,
                ad,
                ov,
            )
}

proof fn lemma_below_child(f: CompareFoundation, a: Seq<char>, k: Seq<char>, c: Seq<char>)
    requires
        f.wf(),
        f.has_key(c),
        c.len() > 0,
        paths::key_parent(c) == k,
        k == a || strictly_below(a, k),
    ensures
        strictly_below(a, c),
{
    lemma_node_facts(f, c);
    paths::lemma_normal_key_first(c);
    paths::lemma_last_slash_bound(c);
    match paths::last_slash(c) {
        Some(j) => {
            assert(c.take(j) == k);
            assert(j > 0);
            assert(c[j] == '/');
            if k != a {
                assert(c.take(a.len() as int) =~= k.take(a.len() as int));
                assert(c[a.len() as int] == k[a.len() as int]);
            }
        },
        None => {
            assert(k.len() == 0);
            if k != a {
                assert(false);
            }
        },
    }
}

proof fn lemma_item_rows_below(
    f: CompareFoundation,
    a: Seq<char>,
    key: Seq<char>,
    plen: int,
    ad: u16,
    show: bool,
    ov: Map<Seq<char>, bool>,
    lim: int,
)
    requires
        f.wf(),
        f.has_key(key),
        paths::normalize_path(key) == key,
        strictly_below(a, key),
        opened_below(f, a, key, ad, ov),
    ensures
        rows_of_descendants(f, item_rows(f, key, plen, ad, show, ov, lim), a, ad, show, ov),
    decreases lim - plen, 0int,
{
    let rows = item_rows(f, key, plen, ad, show, ov, lim);
    let n = f.node_of(key);
    lemma_node_facts(f, key);
    if !(!show && paths::is_hidden_path(n.relative_path@)) {
        let row = tree_row(n, key, ad, ov);
        let nl = n.relative_path@.len() as int;
        if row.4 && plen < nl && nl <= lim {
            let cs = child_keys(n);
            assert forall|m: int| 0 <= m < cs.len() implies f.has_key(#[trigger] cs[m])
                && paths::normalize_path(cs[m]) == cs[m] && strictly_below(a, cs[m])
                && opened_below(f, a, cs[m], ad, ov) by {
                crate::compare_foundation::lemma_child_key(f, n, m);
                lemma_below_child(f, a, key, cs[m]);
                assert(paths::key_parent(cs[m]) == key);
                assert(key != a);
            }
            lemma_forest_rows_below(f, a, cs, nl, ad, show, ov, lim);
            let rest = forest_rows(f, cs, nl, ad, show, ov, lim);
            let all = seq![row] + rest;
            assert(all == rows);
            assert forall|i: int| 0 <= i < all.len() implies exists|k: Seq<char>|
                #![trigger f.node_of(k)]
                shown_node(f, a, k, ad, show, ov) && #[trigger] all[i] == tree_row(
                    f.node_of(k),
                    k,
                    ad,
                    ov,
                ) by {
                if i == 0 {
                    assert(shown_node(f, a, key, ad, show, ov));
                    assert(all[0] == tree_row(f.node_of(key), key, ad, ov));
                } else {
                    assert(all[i] == rest[i - 1]);
                }
            }
        } else {
            assert(rows == seq![row]);
            assert(shown_node(f, a, key, ad, show, ov));
            assert(rows[0] == tree_row(f.node_of(key), key, ad, ov));
        }
    }
}

proof fn lemma_forest_rows_below(
    f: CompareFoundation,
    a: Seq<char>,
    cs: Seq<Seq<char>>,
    plen: int,
    ad: u16,
    show: bool,
    ov: Map<Seq<char>, bool>,
    lim: int,
)
    requires
        f.wf(),
        forall|m: int|
            0 <= m < cs.len() ==> f.has_key(#[trigger] cs[m]) && paths::normalize_path(cs[m])
                == cs[m] && strictly_below(a, cs[m]) && opened_below(f, a, cs[m], ad, ov),
    ensures
        rows_of_descendants(f, forest_rows(f, cs, plen, ad, show, ov, lim), a, ad, show, ov),
    decreases lim - plen, cs.len(),
{
    if cs.len() > 0 {
        assert(f.has_key(cs[0]));
        lemma_item_rows_below(f, a, cs[0], plen, ad, show, ov, lim);
        let tail = cs.drop_first();
        assert forall|m: int| 0 <= m < tail.len() implies f.has_key(#[trigger] tail[m])
            && paths::normalize_path(tail[m]) == tail[m] && strictly_below(a, tail[m])
            && opened_below(f, a, tail[m], ad, ov) by {
            assert(tail[m] == cs[m + 1]);
        }
        lemma_forest_rows_below(f, a, tail, plen, ad, show, ov, lim);
        let first = item_rows(f, cs[0], plen, ad, show, ov, lim);
        let rest = forest_rows(f, tail, plen, ad, show, ov, lim);
        let all = first + rest;
        assert forall|i: int| 0 <= i < all.len() implies exists|k: Seq<char>|
            #![trigger f.node_of(k)]
            shown_node(f, a, k, ad, show, ov) && #[trigger] all[i] == tree_row(
                f.node_of(k),
                k,
                ad,
                ov,
            ) by {
            if i < first.len() {
                assert(all[i] == first[i]);
            } else {
                assert(all[i] == rest[i - first.len()]);
            }
        }
    }
}

/// Every row of the Compare View tree is the row of an existing node strictly
/// below the clamped focus, with every node between them an expanded
/// directory, and not hidden unless hidden entries are shown: its row is a
/// directory exactly for root and directory nodes,
/// expandable exactly for a directory with children, expanded exactly when
/// expandable and chosen (or, without a choice, at depth 1 or less), at the
/// node's depth below the focus.
pub proof fn lemma_compare_tree_rows_below_focus(
    f: CompareFoundation,
    focus: Option<Seq<char>>,
    show: bool,
    ov: Map<Seq<char>, bool>,
)
    requires
        f.wf(),
    ensures
        ({
            let ak = paths::normalize_path(f.clamped_key(focus));
            f.has_key(ak) ==> rows_of_descendants(
                f,
                compare_tree_rows_spec(f, focus, show, ov),
                ak,
                f.node_of(ak).path_depth,
                show,
                ov,
            )
        }),
{
    let ak = paths::normalize_path(f.clamped_key(focus));
    if f.has_key(ak) {
        let an = f.node_of(ak);
        lemma_node_facts(f, ak);
        let cs = child_keys(an);
        assert forall|m: int| 0 <= m < cs.len() implies f.has_key(#[trigger] cs[m])
            && paths::normalize_path(cs[m]) == cs[m] && strictly_below(ak, cs[m])
            && opened_below(f, ak, cs[m], an.path_depth, ov) by {
            crate::compare_foundation::lemma_child_key(f, an, m);
            lemma_below_child(f, ak, ak, cs[m]);
            assert(paths::key_parent(cs[m]) == ak);
        }
        lemma_forest_rows_below(
            f,
            ak,
            cs,
            an.relative_path@.len() as int,
            an.path_depth,
            show,
            ov,
            f.max_key_len(),
        );
    }
}

/// `k` lies below `a` by parent links, and every node strictly between them
/// is a directory whose row is expanded.
pub open spec fn opened_below(
    f: CompareFoundation,
    a: Seq<char>,
    k: Seq<char>,
    ad: u16,
    ov: Map<Seq<char>, bool>,
) -> bool
    decreases k.len(),
{
    if k.len() == 0 {
        false
    } else {
        let p = paths::key_parent(k);
        proof {
            paths::lemma_key_parent_shorter(k);
        }
        if p == a {
            true
        } else {
            tree_row(f.node_of(p), p, ad, ov).4 && opened_below(f, a, p, ad, ov)
        }
    }
}

proof fn lemma_forest_contains_item(
    f: CompareFoundation,
    cs: Seq<Seq<char>>,
    c: Seq<char>,
    row: (Seq<char>, u16, bool, bool, bool),
    plen: int,
    ad: u16,
    show: bool,
    ov: Map<Seq<char>, bool>,
    lim: int,
)
    requires
        cs.contains(c),
        item_rows(f, c, plen, ad, show, ov, lim).contains(row),
    ensures
        forest_rows(f, cs, plen, ad, show, ov, lim).contains(row),
    decreases cs.len(),
{
    let k = choose|k: int| 0 <= k < cs.len() && cs[k] == c;
    let first = item_rows(f, cs[0], plen, ad, show, ov, lim);
    let rest = forest_rows(f, cs.drop_first(), plen, ad, show, ov, lim);
    assert(forest_rows(f, cs, plen, ad, show, ov, lim) == first + rest);
    if cs[0] == c {
        let j = choose|j: int| 0 <= j < first.len() && first[j] == row;
        assert((first + rest)[j] == row);
    } else {
        assert(cs.drop_first()[k - 1] == c);
        lemma_forest_contains_item(f, cs.drop_first(), c, row, plen, ad, show, ov, lim);
        let j = choose|j: int| 0 <= j < rest.len() && rest[j] == row;
        assert((first + rest)[first.len() + j] == row);
    }
}

#[verifier::spinoff_prover]
proof fn lemma_rows_up(
    f: CompareFoundation,
    a: Seq<char>,
    ad: u16,
    x: Seq<char>,
    row: (Seq<char>, u16, bool, bool, bool),
    show: bool,
    ov: Map<Seq<char>, bool>,
)
    requires
        f.wf(),
        f.has_key(a),
        f.has_key(x),
        show || !paths::is_hidden_path(x),
        opened_below(f, a, x, ad, ov),
        item_rows(f, x, paths::key_parent(x).len() as int, ad, show, ov, f.max_key_len()).contains(
            row,
        ),
    ensures
        forest_rows(f, child_keys(f.node_of(a)), a.len() as int, ad, show, ov, f.max_key_len()).contains(
            row,
        ),
    decreases x.len(),
{
    let lim = f.max_key_len();
    let p = paths::key_parent(x);
    paths::lemma_key_parent_shorter(x);
    crate::compare_foundation::lemma_parent_present(f, x);
    lemma_node_facts(f, x);
    lemma_node_facts(f, p);
    lemma_node_facts(f, a);
    let pn = f.node_of(p);
    let j = f.index_of(x);
    assert(paths::key_parent(f.key_at(j)) == pn.relative_path@);
    assert(child_keys(pn).contains(f.key_at(j)));
    lemma_forest_contains_item(f, child_keys(pn), x, row, p.len() as int, ad, show, ov, lim);
    if p != a {
        assert(opened_below(f, a, p, ad, ov));
        assert(p.len() > 0) by {
            reveal_with_fuel(opened_below, 2);
        }
        let pp = paths::key_parent(p);
        paths::lemma_key_parent_shorter(p);
        if !show && paths::is_hidden_path(p) {
            lemma_parent_hidden(x);
        }
        assert(paths::normalize_path(p) == p);
        let prow = tree_row(pn, p, ad, ov);
        let inner = forest_rows(f, child_keys(pn), p.len() as int, ad, show, ov, lim);
        assert(item_rows(f, p, pp.len() as int, ad, show, ov, lim) == seq![prow] + inner);
        let q = choose|q: int| 0 <= q < inner.len() && inner[q] == row;
        assert((seq![prow] + inner)[q + 1] == row);
        lemma_rows_up(f, a, ad, p, row, show, ov);
    }
}

/// Every node below the clamped focus shows in the Compare View when each node
/// between the focus and it is an expanded directory and it is not hidden
/// (or hidden entries are shown): its row, with its directory, expandable
/// and expanded flags and its depth below the focus, is one of the rows.
pub proof fn lemma_compare_tree_shows_opened_nodes(
    f: CompareFoundation,
    focus: Option<Seq<char>>,
    show: bool,
    ov: Map<Seq<char>, bool>,
    k: Seq<char>,
)
    requires
        f.wf(),
        f.has_key(k),
        show || !paths::is_hidden_path(k),
        ({
            let ak = paths::normalize_path(f.clamped_key(focus));
            opened_below(f, ak, k, f.node_of(ak).path_depth, ov)
        }),
    ensures
        ({
            let ak = paths::normalize_path(f.clamped_key(focus));
            f.has_key(ak) ==> compare_tree_rows_spec(f, focus, show, ov).contains(
                tree_row(f.node_of(k), k, f.node_of(ak).path_depth, ov),
            )
        }),
{
    let ak = paths::normalize_path(f.clamped_key(focus));
    if f.has_key(ak) {
        let ad = f.node_of(ak).path_depth;
        let lim = f.max_key_len();
        lemma_node_facts(f, k);
        lemma_node_facts(f, ak);
        assert(k.len() > 0);
        let p = paths::key_parent(k);
        paths::lemma_key_parent_shorter(k);
        assert(paths::normalize_path(k) == k);
        let row = tree_row(f.node_of(k), k, ad, ov);
        let items = item_rows(f, k, p.len() as int, ad, show, ov, lim);
        assert(items[0] == row);
        lemma_rows_up(f, ak, ad, k, row, show, ov);
    }
}

} // verus!
