//! What the tree projections promise about hidden entries.

use vstd::prelude::*;
use crate::compare_foundation::{CompareFoundation, CompareNodeKind, child_keys, lemma_node_facts};
use crate::compare_tree::{compare_tree_rows_spec, forest_rows, item_rows, tree_row};
use crate::navigator_tree::{
    NavRowView, nav_forest_rows, nav_item_rows, nav_kids, nav_node, nav_root_kids,
};
use crate::paths;
use crate::text::{self, TrimClass};

verus! {

/// No row of a hidden subtree shows while hidden files are not shown.
pub open spec fn no_hidden_rows(rows: Seq<(Seq<char>, u16, bool, bool, bool)>) -> bool {
    forall|i: int| 0 <= i < rows.len() ==> !paths::is_hidden_path(#[trigger] rows[i].0)
}

proof fn lemma_item_rows_unhidden(
    f: CompareFoundation,
    key: Seq<char>,
    plen: int,
    ad: u16,
    ov: Map<Seq<char>, bool>,
    lim: int,
)
    ensures
        no_hidden_rows(item_rows(f, key, plen, ad, false, ov, lim)),
    decreases lim - plen, 0int,
{
    let k = paths::normalize_path(key);
    if f.has_key(k) {
        let n = f.node_of(k);
        if !paths::is_hidden_path(n.relative_path@) {
            let row = tree_row(n, key, ad, ov);
            let nl = n.relative_path@.len() as int;
            if row.4 && plen < nl && nl <= lim {
                let rest = forest_rows(f, child_keys(n), nl, ad, false, ov, lim);
                lemma_forest_rows_unhidden(f, child_keys(n), nl, ad, ov, lim);
                let all = seq![row] + rest;
                assert forall|i: int| 0 <= i < all.len() implies !paths::is_hidden_path(
                    #[trigger] all[i].0,
                ) by {
                    if i > 0 {
                        assert(all[i] == rest[i - 1]);
                    }
                }
            }
        }
    }
}

proof fn lemma_forest_rows_unhidden(
    f: CompareFoundation,
    cs: Seq<Seq<char>>,
    plen: int,
    ad: u16,
    ov: Map<Seq<char>, bool>,
    lim: int,
)
    ensures
        no_hidden_rows(forest_rows(f, cs, plen, ad, false, ov, lim)),
    decreases lim - plen, cs.len(),
{
    if cs.len() > 0 {
        let first = item_rows(f, cs[0], plen, ad, false, ov, lim);
        let rest = forest_rows(f, cs.drop_first(), plen, ad, false, ov, lim);
        lemma_item_rows_unhidden(f, cs[0], plen, ad, ov, lim);
        lemma_forest_rows_unhidden(f, cs.drop_first(), plen, ad, ov, lim);
        let all = first + rest;
        assert forall|i: int| 0 <= i < all.len() implies !paths::is_hidden_path(
            #[trigger] all[i].0,
        ) by {
            if i < first.len() {
                assert(all[i] == first[i]);
            } else {
                assert(all[i] == rest[i - first.len()]);
            }
        }
    }
}

/// While hidden files are not shown, the Compare View tree shows no row whose
/// path has a hidden component.
pub proof fn lemma_compare_tree_hides_hidden(
    f: CompareFoundation,
    focus: Option<Seq<char>>,
    ov: Map<Seq<char>, bool>,
)
    ensures
        no_hidden_rows(compare_tree_rows_spec(f, focus, false, ov)),
{
    let ak = paths::normalize_path(f.clamped_key(focus));
    if f.has_key(ak) {
        let a = f.node_of(ak);
        lemma_forest_rows_unhidden(
            f,
            child_keys(a),
            a.relative_path@.len() as int,
            a.path_depth,
            ov,
            f.max_key_len(),
        );
    }
}

// ---------------------------------------------------------------------------
// The navigator tree
// ---------------------------------------------------------------------------

/// No navigator row has a hidden path.
pub open spec fn no_hidden_nav_rows(rows: Seq<NavRowView>) -> bool {
    forall|i: int| 0 <= i < rows.len() ==> !paths::is_hidden_path(#[trigger] rows[i].relative_path)
}

proof fn lemma_empty_path_not_hidden()
    ensures
        !paths::is_hidden_path(Seq::<char>::empty()),
{
    let e = Seq::<char>::empty();
    assert(text::trim_by(e, TrimClass::Slashes) =~= e);
    assert(paths::replace_bs(e) =~= e);
    let pieces = text::split_by(e, '/');
    assert(pieces == seq![e]);
    assert(text::trim(e) =~= e);
    assert forall|i: int| 0 <= i < pieces.len() implies !(text::trim(#[trigger] pieces[i]).len() > 0) by {
        assert(pieces[i] == e);
    }
}

/// A node that the filtered tree keeps, while hidden files are not shown, is
/// present and not hidden.
proof fn lemma_kept_node_unhidden(
    f: CompareFoundation,
    key: Seq<char>,
    plen: int,
    flt: Seq<char>,
    lim: int,
)
    requires
        f.wf(),
        plen <= lim,
        nav_node(f, key, plen, false, flt, lim) is Some,
    ensures
        f.has_key(paths::normalize_path(key)),
        !paths::is_hidden_path(f.node_of(paths::normalize_path(key)).relative_path@),
{
    reveal(nav_node);
    let k = paths::normalize_path(key);
    lemma_node_facts(f, k);
    if f.node_of(k).kind == CompareNodeKind::Root {
        assert(k.len() == 0);
        assert(f.node_of(k).relative_path@ =~= Seq::<char>::empty());
        lemma_empty_path_not_hidden();
    }
}

/// Every child that the filtered tree keeps is kept by `nav_node`.
proof fn lemma_kept_kids(
    f: CompareFoundation,
    cs: Seq<Seq<char>>,
    plen: int,
    flt: Seq<char>,
    lim: int,
)
    requires
        plen <= lim,
    ensures
        forall|i: int|
            0 <= i < nav_kids(f, cs, plen, false, flt, lim).len() ==> nav_node(
                f,
                #[trigger] nav_kids(f, cs, plen, false, flt, lim)[i].0,
                plen,
                false,
                flt,
                lim,
            ) is Some,
    decreases cs.len(),
{
    reveal(nav_kids);
    reveal(nav_node);
    if cs.len() > 0 {
        lemma_kept_kids(f, cs.drop_first(), plen, flt, lim);
        let rest = nav_kids(f, cs.drop_first(), plen, false, flt, lim);
        let ks = nav_kids(f, cs, plen, false, flt, lim);
        match nav_node(f, cs[0], plen, false, flt, lim) {
            Some(st) => {
                assert(ks == seq![(cs[0], st)] + rest);
                assert forall|i: int| 0 <= i < ks.len() implies nav_node(
                    f,
                    #[trigger] ks[i].0,
                    plen,
                    false,
                    flt,
                    lim,
                ) is Some by {
                    if i > 0 {
                        assert(ks[i] == rest[i - 1]);
                    }
                }
            },
            None => {
                assert(ks == rest);
            },
        }
    }
}

proof fn lemma_nav_item_unhidden(
    f: CompareFoundation,
    key: Seq<char>,
    status: Seq<char>,
    plen: int,
    flt: Seq<char>,
    ov: Map<Seq<char>, bool>,
    visible: bool,
    lim: int,
)
    requires
        f.wf(),
        plen <= lim,
        nav_node(f, key, plen, false, flt, lim) is Some,
    ensures
        no_hidden_nav_rows(nav_item_rows(f, key, status, plen, false, flt, ov, visible, lim)),
    decreases lim - plen, 0int,
{
    lemma_kept_node_unhidden(f, key, plen, flt, lim);
    let n = f.node_of(paths::normalize_path(key));
    let nl = n.relative_path@.len() as int;
    if plen < nl && nl <= lim {
        let ks = nav_kids(f, child_keys(n), nl, false, flt, lim);
        lemma_kept_kids(f, child_keys(n), nl, flt, lim);
        let expandable = ks.len() > 0;
        let expanded = expandable && crate::compare_tree::expansion_of(
            ov,
            n.relative_path@,
            n.path_depth,
        );
        lemma_nav_forest_unhidden(f, ks, nl, flt, ov, visible && expanded, lim);
        let own = if visible {
            seq![crate::navigator_tree::nav_row_of(n, status, expandable, expanded)]
        } else {
            Seq::empty()
        };
        let rest = nav_forest_rows(f, ks, nl, false, flt, ov, visible && expanded, lim);
        let all = own + rest;
        assert(all == nav_item_rows(f, key, status, plen, false, flt, ov, visible, lim));
        assert forall|i: int| 0 <= i < all.len() implies !paths::is_hidden_path(
            #[trigger] all[i].relative_path,
        ) by {
            if i >= own.len() {
                assert(all[i] == rest[i - own.len()]);
            }
        }
    }
}

proof fn lemma_nav_forest_unhidden(
    f: CompareFoundation,
    ks: Seq<(Seq<char>, Seq<char>)>,
    plen: int,
    flt: Seq<char>,
    ov: Map<Seq<char>, bool>,
    visible: bool,
    lim: int,
)
    requires
        f.wf(),
        plen <= lim,
        forall|i: int| 0 <= i < ks.len() ==> nav_node(f, #[trigger] ks[i].0, plen, false, flt, lim) is Some,
    ensures
        no_hidden_nav_rows(nav_forest_rows(f, ks, plen, false, flt, ov, visible, lim)),
    decreases lim - plen, ks.len(),
{
    if ks.len() > 0 {
        assert(nav_node(f, ks[0].0, plen, false, flt, lim) is Some);
        lemma_nav_item_unhidden(f, ks[0].0, ks[0].1, plen, flt, ov, visible, lim);
        let tail = ks.drop_first();
        assert forall|i: int| 0 <= i < tail.len() implies nav_node(
            f,
            #[trigger] tail[i].0,
            plen,
            false,
            flt,
            lim,
        ) is Some by {
            assert(tail[i] == ks[i + 1]);
        }
        lemma_nav_forest_unhidden(f, tail, plen, flt, ov, visible, lim);
        let first = nav_item_rows(f, ks[0].0, ks[0].1, plen, false, flt, ov, visible, lim);
        let rest = nav_forest_rows(f, tail, plen, false, flt, ov, visible, lim);
        let all = first + rest;
        assert forall|i: int| 0 <= i < all.len() implies !paths::is_hidden_path(
            #[trigger] all[i].relative_path,
        ) by {
            if i < first.len() {
                assert(all[i] == first[i]);
            } else {
                assert(all[i] == rest[i - first.len()]);
            }
        }
    }
}

/// While hidden files are not shown, the navigator tree shows no row whose
/// path has a hidden component.
pub proof fn lemma_navigator_tree_hides_hidden(
    f: CompareFoundation,
    flt: Seq<char>,
    ov: Map<Seq<char>, bool>,
)
    requires
        f.wf(),
    ensures
        nav_root_kids(f, false, flt) matches Some(ks) ==> no_hidden_nav_rows(
            nav_forest_rows(f, ks, 0, false, flt, ov, true, f.max_key_len()),
        ),
{
    if let Some(ks) = nav_root_kids(f, false, flt) {
        let lim = f.max_key_len();
        let root = f.node_of(Seq::<char>::empty());
        crate::compare_foundation::lemma_max_key_len(f);
        assert(lim >= 0) by {
            crate::compare_foundation::lemma_root_present(f);
            lemma_node_facts(f, Seq::<char>::empty());
        }
        lemma_kept_kids(f, child_keys(root), 0, flt, lim);
        lemma_nav_forest_unhidden(f, ks, 0, flt, ov, true, lim);
    }
}

} // verus!
