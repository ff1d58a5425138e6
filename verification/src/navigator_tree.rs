//! Tree projection for the Results / Navigator tree mode.

use vstd::prelude::*;
use std::collections::BTreeSet;
use crate::compare_foundation::{
    CompareFoundation, CompareFoundationNode, CompareNodeKind, child_keys, is_dir_kind,
    lemma_child_key, lemma_max_key_len, status_token,
};
use crate::compare_foundation;
use crate::compare_tree::expansion_of;
use crate::expansion::ExpansionOverrides;
use crate::paths;
use crate::paths::is_hidden_relative_path;
use crate::text;
use crate::text::{chars_of, string_from_chars};

verus! {

/// The navigator tree: its visible rows, and the source entries that can be
/// selected in it.
pub struct NavigatorTreeProjection {
    pub rows: Vec<NavigatorTreeRowProjection>,
    pub selectable_source_indices: BTreeSet<usize>,
}

/// One visible row of the navigator tree.
#[derive(Debug, Clone, PartialEq, Eq)]
pub struct NavigatorTreeRowProjection {
    pub key: String,
    pub relative_path: String,
    pub source_index: Option<usize>,
    pub depth: u16,
    pub is_directory: bool,
    pub is_expandable: bool,
    pub is_expanded: bool,
    pub display_status: String,
    pub display_name: String,
    pub tooltip_text: String,
    pub is_selectable: bool,
}

/// The values of a navigator row.
pub struct NavRowView {
    pub key: Seq<char>,
    pub relative_path: Seq<char>,
    pub source_index: Option<usize>,
    pub depth: u16,
    pub is_directory: bool,
    pub is_expandable: bool,
    pub is_expanded: bool,
    pub display_status: Seq<char>,
    pub display_name: Seq<char>,
    pub tooltip_text: Seq<char>,
    pub is_selectable: bool,
}

pub open spec fn nav_row_view(r: NavigatorTreeRowProjection) -> NavRowView {
    NavRowView {
        key: r.key@,
        relative_path: r.relative_path@,
        source_index: r.source_index,
        depth: r.depth,
        is_directory: r.is_directory,
        is_expandable: r.is_expandable,
        is_expanded: r.is_expanded,
        display_status: r.display_status@,
        display_name: r.display_name@,
        tooltip_text: r.tooltip_text@,
        is_selectable: r.is_selectable,
    }
}

pub open spec fn nav_rows_view(rs: Seq<NavigatorTreeRowProjection>) -> Seq<NavRowView> {
    rs.map_values(|r: NavigatorTreeRowProjection| nav_row_view(r))
}

/// The row of node `n` with a display status and its expansion.
pub open spec fn nav_row_of(
    n: CompareFoundationNode,
    status: Seq<char>,
    expandable: bool,
    expanded: bool,
) -> NavRowView {
    NavRowView {
        key: n.relative_path@,
        relative_path: n.relative_path@,
        source_index: n.source_index,
        depth: n.path_depth.saturating_sub(1),
        is_directory: is_dir_kind(n.kind),
        is_expandable: expandable,
        is_expanded: expanded,
        display_status: status,
        display_name: n.display_name@,
        tooltip_text: if n.relative_path@.len() == 0 {
            n.display_name@
        } else {
            n.relative_path@
        },
        is_selectable: n.kind == CompareNodeKind::File && n.source_index is Some,
    }
}

// ---------------------------------------------------------------------------
// Status filter and aggregation
// ---------------------------------------------------------------------------

/// What `normalize_status_filter` gives: a known filter name, else `all`.
pub open spec fn status_filter_of(raw: Seq<char>) -> Seq<char> {
    let l = text::lower_seq(text::trim(raw));
    if l == "different"@ || l == "equal"@ || l == "left-only"@ || l == "right-only"@ {
        l
    } else {
        "all"@
    }
}

/// Normalizing a status filter keeps each known filter name, whatever its
/// letter case and surrounding white space, and turns anything else into
/// `all`.
pub proof fn lemma_status_filter_names(raw: Seq<char>)
    ensures
        ({
            let l = text::lower_seq(text::trim(raw));
            &&& l == "different"@ ==> status_filter_of(raw) == "different"@
            &&& l == "equal"@ ==> status_filter_of(raw) == "equal"@
            &&& l == "left-only"@ ==> status_filter_of(raw) == "left-only"@
            &&& l == "right-only"@ ==> status_filter_of(raw) == "right-only"@
            &&& !(l == "different"@ || l == "equal"@ || l == "left-only"@ || l == "right-only"@)
                ==> status_filter_of(raw) == "all"@
        }),
{
}

/// Whether a status passes a normalized filter.
pub open spec fn status_filter_ok(status: Seq<char>, filter: Seq<char>) -> bool {
    filter == "all"@ || text::eq_ignore_case(status, filter)
}

/// Status text of a group: the first non-blank status (trimmed) when all
/// non-blank ones agree ignoring ASCII case, `different` when they do not,
/// `fallback` when there are none.
pub open spec fn agg_status_text(ss: Seq<Seq<char>>, fallback: Seq<char>) -> Seq<char> {
    let t = paths::nonempty_trimmed(ss);
    if t.len() == 0 {
        fallback
    } else if forall|k: int| 0 <= k < t.len() ==> text::eq_ignore_case(#[trigger] t[k], t[0]) {
        t[0]
    } else {
        "different"@
    }
}

/// The normalized status filter: `different`, `equal`, `left-only`,
/// `right-only`, or `all` for anything else.
pub fn normalize_status_filter(raw: &str) -> (r: String)
    ensures
        r@ == status_filter_of(raw@),
{
    let v = chars_of(raw);
    let t = text::trim_chars(&v, text::TrimClass::Whitespace);
    let l = text::lower_chars(&t);
    if text::chars_eq_str(&l, "different") {
        text::to_string("different")
    } else if text::chars_eq_str(&l, "equal") {
        text::to_string("equal")
    } else if text::chars_eq_str(&l, "left-only") {
        text::to_string("left-only")
    } else if text::chars_eq_str(&l, "right-only") {
        text::to_string("right-only")
    } else {
        text::to_string("all")
    }
}

/// Whether `status` passes the normalized `filter`.
pub fn status_filter_matches(status: &str, filter: &str) -> (r: bool)
    ensures
        r == status_filter_ok(status@, filter@),
{
    let f = chars_of(filter);
    if text::chars_eq_str(&f, "all") {
        return true;
    }
    let s = chars_of(status);
    text::chars_eq_ignore_case(&s, &f)
}

/// The aggregated status text of a group of statuses.
pub fn aggregate_statuses(statuses: &[String], fallback: &str) -> (r: String)
    ensures
        r@ == agg_status_text(statuses@.map_values(|s: String| s@), fallback@),
{
    let ghost ss = statuses@.map_values(|s: String| s@);
    let mut kept: Vec<Vec<char>> = Vec::new();
    for i in 0..statuses.len()
        invariant
            ss == statuses@.map_values(|s: String| s@),
            kept@.len() == paths::nonempty_trimmed(ss.take(i as int)).len(),
            forall|k: int|
                0 <= k < kept@.len() ==> #[trigger] kept@[k]@ == paths::nonempty_trimmed(
                    ss.take(i as int),
                )[k],
    {
        proof {
            assert(ss.take(i + 1).drop_last() =~= ss.take(i as int));
            assert(ss.take(i + 1).last() == statuses@[i as int]@);
        }
        let v = chars_of(statuses[i].as_str());
        let t = text::trim_chars(&v, text::TrimClass::Whitespace);
        if t.len() > 0 {
            kept.push(t);
        }
    }
    proof {
        assert(ss.take(ss.len() as int) =~= ss);
    }
    let ghost t = paths::nonempty_trimmed(ss);
    if kept.len() == 0 {
        return text::to_string(fallback);
    }
    for k in 0..kept.len()
        invariant
            t == paths::nonempty_trimmed(statuses@.map_values(|s: String| s@)),
            kept@.len() == t.len(),
            kept@.len() > 0,
            forall|q: int| 0 <= q < kept@.len() ==> #[trigger] kept@[q]@ == t[q],
            forall|q: int| 0 <= q < k ==> text::eq_ignore_case(#[trigger] t[q], t[0]),
    {
        if !text::chars_eq_ignore_case(&kept[k], &kept[0]) {
            assert(!text::eq_ignore_case(t[k as int], t[0]));
            return text::to_string("different");
        }
    }
    string_from_chars(&kept[0])
}

// ---------------------------------------------------------------------------
// Toggle and reveal
// ---------------------------------------------------------------------------

/// What `navigator_tree_toggle_target` gives.
pub open spec fn nav_toggle_spec(f: CompareFoundation, key: Seq<char>) -> Option<(Seq<char>, u16)> {
    let k = paths::normalize_path(key);
    let nk = paths::normalize_path(k);
    if !f.has_key(nk) {
        None
    } else {
        let n = f.node_of(nk);
        if k.len() == 0 || !is_dir_kind(n.kind) || n.child_relative_paths@.len() == 0 {
            None
        } else {
            Some((k, n.path_depth))
        }
    }
}

/// The normalized key and depth of the directory that toggling `key` expands or collapses.
pub fn navigator_tree_toggle_target(foundation: &CompareFoundation, key: &str) -> (r: Option<
    (String, u16),
>)
    ensures
        r is Some == nav_toggle_spec(*foundation, key@) is Some,
        r matches Some(p) ==> nav_toggle_spec(*foundation, key@) == Some((p.0@, p.1)),
{
    proof {
        use_type_invariant(foundation);
    }
    let normalized_key = paths::normalize_relative_path(key);
    let node = match foundation.node(normalized_key.as_str()) {
        Some(n) => n,
        None => {
            return None;
        },
    };
    if normalized_key.as_str().unicode_len() == 0 || !node.kind.is_directory_target()
        || node.child_relative_paths.len() == 0 {
        return None;
    }
    Some((normalized_key, node.path_depth))
}

/// Toggle targets of the first `m` proper prefixes of components `c`, outermost first.
pub open spec fn nav_reveal_upto(f: CompareFoundation, c: Seq<Seq<char>>, m: int) -> Seq<
    (Seq<char>, u16),
>
    decreases m,
{
    if m <= 0 {
        Seq::empty()
    } else {
        nav_reveal_upto(f, c, m - 1) + match nav_toggle_spec(f, paths::prefix_key(c, m)) {
            Some(t) => seq![t],
            None => Seq::empty(),
        }
    }
}

/// What `navigator_tree_reveal_targets` gives.
pub open spec fn nav_reveal_spec(f: CompareFoundation, path: Seq<char>) -> Seq<(Seq<char>, u16)> {
    let c = paths::components(paths::normalize_path(path));
    if c.len() < 2 {
        Seq::empty()
    } else {
        nav_reveal_upto(f, c, c.len() - 1)
    }
}

/// The ancestor directories to expand, outermost first, to show `relative_path`.
pub fn navigator_tree_reveal_targets(foundation: &CompareFoundation, relative_path: &str) -> (r: Vec<
    (String, u16),
>)
    ensures
        r@.map_values(|t: (String, u16)| (t.0@, t.1)) == nav_reveal_spec(*foundation, relative_path@),
{
    proof {
        use_type_invariant(foundation);
    }
    let norm = paths::normalize_chars(&chars_of(relative_path));
    let comps = paths::components_chars(&norm);
    let ghost c = paths::components(norm@);
    let mut targets: Vec<(String, u16)> = Vec::new();
    if comps.len() < 2 {
        assert(targets@.map_values(|t: (String, u16)| (t.0@, t.1)) =~= Seq::<(Seq<char>, u16)>::empty());
        return targets;
    }
    let mut key: Vec<char> = Vec::new();
    proof {
        assert(paths::prefix_key(c, 0) =~= Seq::<char>::empty());
        assert(targets@.map_values(|t: (String, u16)| (t.0@, t.1)) =~= nav_reveal_upto(*foundation, c, 0));
    }
    for index in 0..comps.len() - 1
        invariant
            foundation.wf(),
            comps@.len() == c.len(),
            c.len() >= 2,
            forall|m: int| 0 <= m < comps@.len() ==> (#[trigger] comps@[m])@ == c[m],
            key@ == paths::prefix_key(c, index as int),
            targets@.map_values(|t: (String, u16)| (t.0@, t.1)) == nav_reveal_upto(
                *foundation,
                c,
                index as int,
            ),
    {
        let ghost old_key = key@;
        if index > 0 {
            key.push('/');
        }
        text::push_all(&mut key, &comps[index]);
        proof {
            assert(c.take(index + 1).drop_last() =~= c.take(index as int));
            if index == 0 {
                assert(key@ =~= c[0]);
                assert(paths::prefix_key(c, 1) == c.take(1)[0]);
            } else {
                assert(key@ =~= old_key + seq!['/'] + c[index as int]);
            }
        }
        let ghost before = targets@.map_values(|t: (String, u16)| (t.0@, t.1));
        let k = string_from_chars(&key);
        match navigator_tree_toggle_target(foundation, k.as_str()) {
            Some(t) => {
                targets.push(t);
            },
            None => {},
        }
        proof {
            assert(targets@.map_values(|t: (String, u16)| (t.0@, t.1)) =~= nav_reveal_upto(
                *foundation,
                c,
                index + 1,
            ));
        }
    }
    targets
}

// ---------------------------------------------------------------------------
// Filtered tree
// ---------------------------------------------------------------------------

/// The display status of the node at `key` in the filtered tree, `None` when
/// the filter drops it. A node stays when a child stays or, without children,
/// when it has an entry whose status passes the filter; the root stays when a
/// child does. A node with children shows their aggregated status.
#[verifier::opaque]
pub open spec fn nav_node(
    f: CompareFoundation,
    key: Seq<char>,
    plen: int,
    show: bool,
    flt: Seq<char>,
    lim: int,
) -> Option<Seq<char>>
    decreases lim - plen, 0int,
{
    let k = paths::normalize_path(key);
    if !f.has_key(k) {
        None
    } else {
        let n = f.node_of(k);
        let nl = n.relative_path@.len() as int;
        if n.kind != CompareNodeKind::Root && !show && paths::is_hidden_path(n.relative_path@) {
            None
        } else if !(plen < nl && nl <= lim) {
            None
        } else {
            let kids = nav_kids(f, child_keys(n), nl, show, flt, lim);
            let statuses = kids.map_values(|c: (Seq<char>, Seq<char>)| c.1);
            let own = status_token(n.base_status);
            if n.kind == CompareNodeKind::Root {
                if kids.len() == 0 {
                    None
                } else {
                    Some(agg_status_text(statuses, own))
                }
            } else if kids.len() > 0 {
                Some(agg_status_text(statuses, own))
            } else if n.source_index is Some && status_filter_ok(own, flt) {
                Some(own)
            } else {
                None
            }
        }
    }
}

/// The children at `cs` that stay in the filtered tree, with their display status.
#[verifier::opaque]
pub open spec fn nav_kids(
    f: CompareFoundation,
    cs: Seq<Seq<char>>,
    plen: int,
    show: bool,
    flt: Seq<char>,
    lim: int,
) -> Seq<(Seq<char>, Seq<char>)>
    decreases lim - plen, cs.len(),
{
    if cs.len() == 0 {
        Seq::empty()
    } else {
        let rest = nav_kids(f, cs.drop_first(), plen, show, flt, lim);
        match nav_node(f, cs[0], plen, show, flt, lim) {
            Some(st) => seq![(cs[0], st)] + rest,
            None => rest,
        }
    }
}

proof fn lemma_nav_kids_step(
    f: CompareFoundation,
    cs: Seq<Seq<char>>,
    plen: int,
    show: bool,
    flt: Seq<char>,
    lim: int,
)
    requires
        cs.len() > 0,
        plen <= lim,
    ensures
        nav_kids(f, cs, plen, show, flt, lim) == match nav_node(f, cs[0], plen, show, flt, lim) {
            Some(st) => seq![(cs[0], st)] + nav_kids(f, cs.drop_first(), plen, show, flt, lim),
            None => nav_kids(f, cs.drop_first(), plen, show, flt, lim),
        },
{
    reveal(nav_kids);
    reveal(nav_node);
}

proof fn lemma_nav_kids_empty(
    f: CompareFoundation,
    cs: Seq<Seq<char>>,
    plen: int,
    show: bool,
    flt: Seq<char>,
    lim: int,
)
    requires
        cs.len() == 0,
    ensures
        nav_kids(f, cs, plen, show, flt, lim) == Seq::<(Seq<char>, Seq<char>)>::empty(),
{
    reveal(nav_kids);
}

/// How `nav_node` reads for a present node that the hidden-file rule keeps.
proof fn lemma_nav_node_kept(
    f: CompareFoundation,
    key: Seq<char>,
    plen: int,
    show: bool,
    flt: Seq<char>,
    lim: int,
    kids: Seq<(Seq<char>, Seq<char>)>,
)
    requires
        f.has_key(paths::normalize_path(key)),
        !(f.node_of(paths::normalize_path(key)).kind != CompareNodeKind::Root && !show
            && paths::is_hidden_path(f.node_of(paths::normalize_path(key)).relative_path@)),
        plen < f.node_of(paths::normalize_path(key)).relative_path@.len() <= lim,
        kids == nav_kids(
            f,
            child_keys(f.node_of(paths::normalize_path(key))),
            f.node_of(paths::normalize_path(key)).relative_path@.len() as int,
            show,
            flt,
            lim,
        ),
    ensures
        ({
            let n = f.node_of(paths::normalize_path(key));
            let statuses = kids.map_values(|c: (Seq<char>, Seq<char>)| c.1);
            let own = status_token(n.base_status);
            nav_node(f, key, plen, show, flt, lim) == if n.kind == CompareNodeKind::Root {
                if kids.len() == 0 {
                    None
                } else {
                    Some(agg_status_text(statuses, own))
                }
            } else if kids.len() > 0 {
                Some(agg_status_text(statuses, own))
            } else if n.source_index is Some && status_filter_ok(own, flt) {
                Some(own)
            } else {
                None
            }
        }),
{
    reveal(nav_node);
    reveal(nav_kids);
}

/// `nav_node` drops a missing node and, unless shown, a hidden non-root one.
proof fn lemma_nav_node_dropped(
    f: CompareFoundation,
    key: Seq<char>,
    plen: int,
    show: bool,
    flt: Seq<char>,
    lim: int,
)
    requires
        !f.has_key(paths::normalize_path(key)) || (f.node_of(paths::normalize_path(key)).kind
            != CompareNodeKind::Root && !show && paths::is_hidden_path(
            f.node_of(paths::normalize_path(key)).relative_path@,
        )),
    ensures
        nav_node(f, key, plen, show, flt, lim) is None,
{
    reveal(nav_node);
    reveal(nav_kids);
}

struct FilteredNavigatorNode<'a> {
    node: &'a CompareFoundationNode,
    display_status: String,
    children: Vec<FilteredNavigatorNode<'a>>,
}

/// `x` is the filtered subtree at `key`.
spec fn filtered_ok(
    x: FilteredNavigatorNode,
    f: CompareFoundation,
    key: Seq<char>,
    plen: int,
    show: bool,
    flt: Seq<char>,
    lim: int,
) -> bool
    decreases lim - plen, 0int,
{
    let k = paths::normalize_path(key);
    let nl = k.len() as int;
    &&& f.has_key(k)
    &&& *x.node == f.node_of(k)
    &&& nav_node(f, key, plen, show, flt, lim) == Some(x.display_status@)
    &&& plen < nl <= lim
    &&& kids_ok(x.children@, nav_kids(f, child_keys(f.node_of(k)), nl, show, flt, lim), f, nl, show, flt, lim)
}

/// `xs` are the filtered subtrees of the kept children `ks`, in order.
spec fn kids_ok(
    xs: Seq<FilteredNavigatorNode>,
    ks: Seq<(Seq<char>, Seq<char>)>,
    f: CompareFoundation,
    plen: int,
    show: bool,
    flt: Seq<char>,
    lim: int,
) -> bool
    decreases lim - plen, xs.len(),
{
    if xs.len() == 0 {
        ks.len() == 0
    } else {
        &&& ks.len() > 0
        &&& filtered_ok(xs[0], f, ks[0].0, plen, show, flt, lim)
        &&& xs[0].display_status@ == ks[0].1
        &&& kids_ok(xs.drop_first(), ks.drop_first(), f, plen, show, flt, lim)
    }
}

proof fn lemma_kids_ok_from_all(
    xs: Seq<FilteredNavigatorNode>,
    ks: Seq<(Seq<char>, Seq<char>)>,
    f: CompareFoundation,
    plen: int,
    show: bool,
    flt: Seq<char>,
    lim: int,
)
    requires
        xs.len() == ks.len(),
        forall|i: int| 0 <= i < xs.len() ==> #[trigger] filtered_ok(xs[i], f, ks[i].0, plen, show, flt, lim),
        forall|i: int| 0 <= i < xs.len() ==> (#[trigger] xs[i]).display_status@ == ks[i].1,
    ensures
        kids_ok(xs, ks, f, plen, show, flt, lim),
    decreases xs.len(),
{
    if xs.len() > 0 {
        let a = xs.drop_first();
        let b = ks.drop_first();
        assert forall|i: int| 0 <= i < a.len() implies #[trigger] filtered_ok(a[i], f, b[i].0, plen, show, flt, lim) by {
            assert(a[i] == xs[i + 1] && b[i] == ks[i + 1]);
        }
        assert forall|i: int| 0 <= i < a.len() implies (#[trigger] a[i]).display_status@ == b[i].1 by {
            assert(a[i] == xs[i + 1] && b[i] == ks[i + 1]);
        }
        lemma_kids_ok_from_all(a, b, f, plen, show, flt, lim);
        assert(filtered_ok(xs[0], f, ks[0].0, plen, show, flt, lim));
    }
}

#[verifier::rlimit(40)]
fn filter_tree_node<'a>(
    foundation: &'a CompareFoundation,
    key: &str,
    show_hidden_files: bool,
    status_filter: &str,
    Ghost(plen): Ghost<int>,
    Ghost(lim): Ghost<int>,
) -> (r: Option<FilteredNavigatorNode<'a>>)
    requires
        foundation.wf(),
        forall|i: int| 0 <= i < foundation.node_seq().len() ==> (#[trigger] foundation.key_at(i)).len() <= lim,
        paths::normalize_path(key@).len() > plen,
    ensures
        r is Some == nav_node(*foundation, key@, plen, show_hidden_files, status_filter@, lim) is Some,
        r matches Some(x) ==> nav_node(*foundation, key@, plen, show_hidden_files, status_filter@, lim)
            == Some(x.display_status@),
        r matches Some(x) ==> filtered_ok(x, *foundation, key@, plen, show_hidden_files, status_filter@, lim),
    decreases lim - plen, 0int,
{
    let ghost f = *foundation;
    let ghost flt = status_filter@;
    let ghost show = show_hidden_files;
    let node = match foundation.node(key) {
        Some(n) => n,
        None => {
            proof {
                lemma_nav_node_dropped(f, key@, plen, show, flt, lim);
            }
            return None;
        },
    };
    let ghost k = paths::normalize_path(key@);
    proof {
        compare_foundation::lemma_node_facts(f, k);
        assert(f.key_at(f.index_of(k)) == k);
    }
    if node.kind != CompareNodeKind::Root && !show_hidden_files && is_hidden_relative_path(
        node.relative_path.as_str(),
    ) {
        proof {
            lemma_nav_node_dropped(f, key@, plen, show, flt, lim);
        }
        return None;
    }
    let ghost nl = node.relative_path@.len() as int;
    let ghost cs = child_keys(*node);
    let ghost mut acc: Seq<(Seq<char>, Seq<char>)> = Seq::empty();
    let mut children: Vec<FilteredNavigatorNode<'a>> = Vec::new();
    proof {
        assert(cs.skip(0) =~= cs);
    }
    for m in 0..node.child_relative_paths.len()
        invariant
            foundation.wf(),
            f == *foundation,
            forall|i: int| 0 <= i < foundation.node_seq().len() ==> (#[trigger] foundation.key_at(i)).len() <= lim,
            foundation.children_ok(*node),
            cs == child_keys(*node),
            nl == node.relative_path@.len(),
            plen < nl <= lim,
            flt == status_filter@,
            show == show_hidden_files,
            nav_kids(f, cs, nl, show, flt, lim) == acc + nav_kids(f, cs.skip(m as int), nl, show, flt, lim),
            children@.len() == acc.len(),
            forall|i: int|
                0 <= i < acc.len() ==> #[trigger] filtered_ok(children@[i], f, acc[i].0, nl, show, flt, lim),
            forall|i: int| 0 <= i < acc.len() ==> (#[trigger] children@[i]).display_status@ == acc[i].1,
    {
        proof {
            lemma_child_key(f, *node, m as int);
            assert(cs.skip(m as int).drop_first() =~= cs.skip(m + 1));
            assert(cs.skip(m as int)[0] == cs[m as int]);
            assert(node.child_relative_paths@[m as int]@ == cs[m as int]);
            lemma_nav_kids_step(f, cs.skip(m as int), nl, show, flt, lim);
        }
        let r = filter_tree_node(
            foundation,
            node.child_relative_paths[m].as_str(),
            show_hidden_files,
            status_filter,
            Ghost(nl),
            Ghost(lim),
        );
        match r {
            Some(x) => {
                let ghost old_children = children@;
                proof {
                    let old_acc = acc;
                    acc = acc.push((cs[m as int], x.display_status@));
                    assert(acc + nav_kids(f, cs.skip(m + 1), nl, show, flt, lim) =~= old_acc + (seq![
                        (cs[m as int], x.display_status@),
                    ] + nav_kids(f, cs.skip(m + 1), nl, show, flt, lim)));
                }
                children.push(x);
                proof {
                    assert forall|i: int| 0 <= i < acc.len() implies #[trigger] filtered_ok(
                        children@[i],
                        f,
                        acc[i].0,
                        nl,
                        show,
                        flt,
                        lim,
                    ) by {
                        if i < acc.len() - 1 {
                            assert(children@[i] == old_children[i]);
                        }
                    }
                    assert forall|i: int| 0 <= i < acc.len() implies (#[trigger] children@[i]).display_status@
                        == acc[i].1 by {
                        if i < acc.len() - 1 {
                            assert(children@[i] == old_children[i]);
                        }
                    }
                }
            },
            None => {},
        }
    }
    proof {
        assert(cs.skip(cs.len() as int) =~= Seq::<Seq<char>>::empty());
        lemma_nav_kids_empty(f, cs.skip(cs.len() as int), nl, show, flt, lim);
        assert(acc + Seq::<(Seq<char>, Seq<char>)>::empty() =~= acc);
    }
    let mut statuses: Vec<String> = Vec::new();
    for i in 0..children.len()
        invariant
            statuses@.len() == i,
            children@.len() == acc.len(),
            forall|q: int| 0 <= q < acc.len() ==> (#[trigger] children@[q]).display_status@ == acc[q].1,
            forall|q: int| 0 <= q < i ==> (#[trigger] statuses@[q])@ == acc[q].1,
    {
        statuses.push(children[i].display_status.clone());
    }
    proof {
        assert(statuses@.map_values(|s: String| s@) =~= acc.map_values(|c: (Seq<char>, Seq<char>)| c.1));
    }
    let own = node.base_status.as_str();
    let display_status = if node.kind == CompareNodeKind::Root {
        if children.len() == 0 {
            proof {
                lemma_nav_node_kept(f, key@, plen, show, flt, lim, acc);
            }
            return None;
        }
        aggregate_statuses(&statuses, own)
    } else if children.len() > 0 {
        aggregate_statuses(&statuses, own)
    } else if node.has_compare_entry() && status_filter_matches(own, status_filter) {
        text::to_string(own)
    } else {
        proof {
            lemma_nav_node_kept(f, key@, plen, show, flt, lim, acc);
        }
        return None;
    };
    let ghost kids_v = children@;
    let x = FilteredNavigatorNode { node, display_status, children };
    proof {
        assert(nav_kids(f, child_keys(f.node_of(k)), nl, show, flt, lim) == acc);
        assert(k.len() == nl);
        lemma_nav_node_kept(f, key@, plen, show, flt, lim, acc);
        assert(nav_node(f, key@, plen, show, flt, lim) == Some(x.display_status@));
        assert(x.children@ == kids_v);
        lemma_kids_ok_from_all(kids_v, acc, f, nl, show, flt, lim);
    }
    Some(x)
}

// ---------------------------------------------------------------------------
// Flattening
// ---------------------------------------------------------------------------

/// Rows of the kept subtree at `key` with display status `status`: its row when
/// visible, then its kept children's rows, visible while it is expanded.
pub open spec fn nav_item_rows(
    f: CompareFoundation,
    key: Seq<char>,
    status: Seq<char>,
    plen: int,
    show: bool,
    flt: Seq<char>,
    ov: Map<Seq<char>, bool>,
    visible: bool,
    lim: int,
) -> Seq<NavRowView>
    decreases lim - plen, 0int,
{
    let n = f.node_of(paths::normalize_path(key));
    let nl = n.relative_path@.len() as int;
    if !(plen < nl && nl <= lim) {
        Seq::empty()
    } else {
        let ks = nav_kids(f, child_keys(n), nl, show, flt, lim);
        let expandable = ks.len() > 0;
        let expanded = expandable && expansion_of(ov, n.relative_path@, n.path_depth);
        let own = if visible {
            seq![nav_row_of(n, status, expandable, expanded)]
        } else {
            Seq::empty()
        };
        own + nav_forest_rows(f, ks, nl, show, flt, ov, visible && expanded, lim)
    }
}

/// Rows of the kept subtrees `ks`, one after another.
pub open spec fn nav_forest_rows(
    f: CompareFoundation,
    ks: Seq<(Seq<char>, Seq<char>)>,
    plen: int,
    show: bool,
    flt: Seq<char>,
    ov: Map<Seq<char>, bool>,
    visible: bool,
    lim: int,
) -> Seq<NavRowView>
    decreases lim - plen, ks.len(),
{
    if ks.len() == 0 {
        Seq::empty()
    } else {
        nav_item_rows(f, ks[0].0, ks[0].1, plen, show, flt, ov, visible, lim) + nav_forest_rows(
            f,
            ks.drop_first(),
            plen,
            show,
            flt,
            ov,
            visible,
            lim,
        )
    }
}

/// Source indices of the file entries in the kept subtree at `key`.
pub open spec fn nav_item_sel(
    f: CompareFoundation,
    key: Seq<char>,
    plen: int,
    show: bool,
    flt: Seq<char>,
    lim: int,
) -> Set<usize>
    decreases lim - plen, 0int,
{
    let n = f.node_of(paths::normalize_path(key));
    let nl = n.relative_path@.len() as int;
    if !(plen < nl && nl <= lim) {
        Set::empty()
    } else {
        let ks = nav_kids(f, child_keys(n), nl, show, flt, lim);
        let own = if n.kind == CompareNodeKind::File && n.source_index is Some {
            set![n.source_index->0]
        } else {
            Set::empty()
        };
        own.union(nav_forest_sel(f, ks, nl, show, flt, lim))
    }
}

/// Source indices of the file entries in the kept subtrees `ks`.
pub open spec fn nav_forest_sel(
    f: CompareFoundation,
    ks: Seq<(Seq<char>, Seq<char>)>,
    plen: int,
    show: bool,
    flt: Seq<char>,
    lim: int,
) -> Set<usize>
    decreases lim - plen, ks.len(),
{
    if ks.len() == 0 {
        Set::empty()
    } else {
        nav_item_sel(f, ks[0].0, plen, show, flt, lim).union(
            nav_forest_sel(f, ks.drop_first(), plen, show, flt, lim),
        )
    }
}

/// Whether a navigator directory is expanded: the recorded choice, else the first level only.
pub fn expansion_state(key: &str, path_depth: u16, expansion_overrides: &ExpansionOverrides) -> (r:
    bool)
    ensures
        r == expansion_of(expansion_overrides@, key@, path_depth),
{
    match expansion_overrides.get(key) {
        Some(v) => v,
        None => path_depth <= 1,
    }
}

fn flatten_filtered_tree(
    x: &FilteredNavigatorNode,
    expansion_overrides: &ExpansionOverrides,
    push_visible_row: bool,
    out: &mut Vec<NavigatorTreeRowProjection>,
    selectable_source_indices: &mut BTreeSet<usize>,
    Ghost(f): Ghost<CompareFoundation>,
    Ghost(key): Ghost<Seq<char>>,
    Ghost(plen): Ghost<int>,
    Ghost(show): Ghost<bool>,
    Ghost(flt): Ghost<Seq<char>>,
    Ghost(lim): Ghost<int>,
)
    requires
        filtered_ok(*x, f, key, plen, show, flt, lim),
    ensures
        nav_rows_view(final(out)@) == nav_rows_view(old(out)@) + nav_item_rows(
            f,
            key,
            x.display_status@,
            plen,
            show,
            flt,
            expansion_overrides@,
            push_visible_row,
            lim,
        ),
        final(selectable_source_indices)@ == old(selectable_source_indices)@.union(
            nav_item_sel(f, key, plen, show, flt, lim),
        ),
    decreases lim - plen, 0int,
{
    let ghost ov = expansion_overrides@;
    let ghost start_rows = nav_rows_view(out@);
    let ghost start_sel = selectable_source_indices@;
    let node = x.node;
    let ghost k = paths::normalize_path(key);
    let ghost nl = k.len() as int;
    let ghost ks = nav_kids(f, child_keys(f.node_of(k)), nl, show, flt, lim);
    proof {
        assert(node.relative_path@ == k) by {
            let i = f.index_of(k);
            assert(f.key_at(i) == k);
        }
    }
    if node.kind == CompareNodeKind::File {
        match node.source_index {
            Some(si) => {
                selectable_source_indices.insert(si);
            },
            None => {},
        }
    }
    let ghost own_sel = if node.kind == CompareNodeKind::File && node.source_index is Some {
        set![node.source_index->0]
    } else {
        Set::<usize>::empty()
    };
    proof {
        assert(selectable_source_indices@ =~= start_sel.union(own_sel));
        assert(x.children@.len() == ks.len()) by {
            lemma_kids_ok_len(x.children@, ks, f, nl, show, flt, lim);
        }
    }
    let is_expandable = x.children.len() > 0;
    let is_expanded = is_expandable && expansion_state(
        node.relative_path.as_str(),
        node.path_depth,
        expansion_overrides,
    );
    if push_visible_row {
        let tooltip_text = if node.relative_path.as_str().unicode_len() == 0 {
            node.display_name.clone()
        } else {
            node.relative_path.clone()
        };
        out.push(
            NavigatorTreeRowProjection {
                key: node.relative_path.clone(),
                relative_path: node.relative_path.clone(),
                source_index: node.source_index,
                depth: node.path_depth.saturating_sub(1),
                is_directory: node.kind.is_directory_target(),
                is_expandable,
                is_expanded,
                display_status: x.display_status.clone(),
                display_name: node.display_name.clone(),
                tooltip_text,
                is_selectable: node.kind == CompareNodeKind::File && node.source_index.is_some(),
            },
        );
    }
    let ghost own_rows = if push_visible_row {
        seq![nav_row_of(*node, x.display_status@, is_expandable, is_expanded)]
    } else {
        Seq::<NavRowView>::empty()
    };
    proof {
        assert(nav_rows_view(out@) =~= start_rows + own_rows);
        assert(x.children@.skip(0) =~= x.children@);
        assert(ks.skip(0) =~= ks);
    }
    let push_children = push_visible_row && is_expanded;
    for i in 0..x.children.len()
        invariant
            plen < nl <= lim,
            x.children@.len() == ks.len(),
            kids_ok(x.children@.skip(i as int), ks.skip(i as int), f, nl, show, flt, lim),
            ov == expansion_overrides@,
            start_rows + own_rows + nav_forest_rows(f, ks, nl, show, flt, ov, push_children, lim)
                == nav_rows_view(out@) + nav_forest_rows(f, ks.skip(i as int), nl, show, flt, ov, push_children, lim),
            start_sel.union(own_sel).union(nav_forest_sel(f, ks, nl, show, flt, lim))
                == selectable_source_indices@.union(nav_forest_sel(f, ks.skip(i as int), nl, show, flt, lim)),
    {
        let ghost xs = x.children@.skip(i as int);
        let ghost kk = ks.skip(i as int);
        proof {
            assert(xs[0] == x.children@[i as int]);
            assert(kk[0] == ks[i as int]);
            assert(xs.drop_first() =~= x.children@.skip(i + 1));
            assert(kk.drop_first() =~= ks.skip(i + 1));
        }
        let ghost before_rows = nav_rows_view(out@);
        let ghost before_sel = selectable_source_indices@;
        flatten_filtered_tree(
            &x.children[i],
            expansion_overrides,
            push_children,
            out,
            selectable_source_indices,
            Ghost(f),
            Ghost(ks[i as int].0),
            Ghost(nl),
            Ghost(show),
            Ghost(flt),
            Ghost(lim),
        );
        proof {
            let item = nav_item_sel(f, ks[i as int].0, nl, show, flt, lim);
            let rest = nav_forest_sel(f, ks.skip(i + 1), nl, show, flt, lim);
            assert(before_sel.union(item).union(rest) =~= before_sel.union(item.union(rest)));
        }
    }
    proof {
        assert(ks.skip(ks.len() as int) =~= Seq::<(Seq<char>, Seq<char>)>::empty());
        assert(nav_rows_view(out@) + Seq::<NavRowView>::empty() =~= nav_rows_view(out@));
        assert(selectable_source_indices@.union(Set::<usize>::empty()) =~= selectable_source_indices@);
        assert(start_rows + own_rows + nav_forest_rows(f, ks, nl, show, flt, ov, push_children, lim)
            =~= start_rows + (own_rows + nav_forest_rows(f, ks, nl, show, flt, ov, push_children, lim)));
        assert(start_sel.union(own_sel).union(nav_forest_sel(f, ks, nl, show, flt, lim))
            =~= start_sel.union(own_sel.union(nav_forest_sel(f, ks, nl, show, flt, lim))));
    }
}

proof fn lemma_kids_ok_len(
    xs: Seq<FilteredNavigatorNode>,
    ks: Seq<(Seq<char>, Seq<char>)>,
    f: CompareFoundation,
    plen: int,
    show: bool,
    flt: Seq<char>,
    lim: int,
)
    requires
        kids_ok(xs, ks, f, plen, show, flt, lim),
    ensures
        xs.len() == ks.len(),
    decreases xs.len(),
{
    if xs.len() > 0 {
        lemma_kids_ok_len(xs.drop_first(), ks.drop_first(), f, plen, show, flt, lim);
    }
}

/// Kept children of the root, when the root stays in the filtered tree.
pub open spec fn nav_root_kids(f: CompareFoundation, show: bool, flt: Seq<char>) -> Option<
    Seq<(Seq<char>, Seq<char>)>,
> {
    let lim = f.max_key_len();
    if nav_node(f, Seq::empty(), -1, show, flt, lim) is Some {
        Some(nav_kids(f, child_keys(f.node_of(Seq::empty())), 0, show, flt, lim))
    } else {
        None
    }
}

/// The navigator tree of a foundation: the entries whose status passes the
/// normalized filter (hidden ones only when shown), with every directory
/// above them; a directory's rows visible while it and its ancestors are
/// expanded; and the source index of every kept file entry.
pub fn project_navigator_tree_rows(
    foundation: &CompareFoundation,
    show_hidden_files: bool,
    status_filter: &str,
    expansion_overrides: &ExpansionOverrides,
) -> (r: NavigatorTreeProjection)
    ensures
        ({
            let flt = status_filter_of(status_filter@);
            match nav_root_kids(*foundation, show_hidden_files, flt) {
                None => r.rows@.len() == 0 && r.selectable_source_indices@ == Set::<usize>::empty(),
                Some(ks) => nav_rows_view(r.rows@) == nav_forest_rows(
                    *foundation,
                    ks,
                    0,
                    show_hidden_files,
                    flt,
                    expansion_overrides@,
                    true,
                    foundation.max_key_len(),
                ) && r.selectable_source_indices@ == nav_forest_sel(
                    *foundation,
                    ks,
                    0,
                    show_hidden_files,
                    flt,
                    foundation.max_key_len(),
                ),
            }
        }),
{
    proof {
        use_type_invariant(foundation);
    }
    let ghost f = *foundation;
    let ghost lim = foundation.max_key_len();
    let normalized_filter = normalize_status_filter(status_filter);
    let ghost flt = normalized_filter@;
    let mut rows: Vec<NavigatorTreeRowProjection> = Vec::new();
    let mut selectable_source_indices: BTreeSet<usize> = BTreeSet::new();
    proof {
        reveal_strlit("");
        assert(""@ =~= Seq::<char>::empty());
        lemma_max_key_len(f);
        paths::lemma_normalize_len(Seq::<char>::empty());
    }
    let root = match filter_tree_node(
        foundation,
        "",
        show_hidden_files,
        normalized_filter.as_str(),
        Ghost(-1),
        Ghost(lim),
    ) {
        Some(x) => x,
        None => {
            return NavigatorTreeProjection { rows, selectable_source_indices };
        },
    };
    let ghost k = paths::normalize_path(Seq::<char>::empty());
    proof {
        assert(k =~= Seq::<char>::empty()) by {
            paths::lemma_normalize_len(Seq::<char>::empty());
        }
    }
    let ghost ks = nav_kids(f, child_keys(f.node_of(k)), 0, show_hidden_files, flt, lim);
    proof {
        assert(root.children@.len() == ks.len()) by {
            lemma_kids_ok_len(root.children@, ks, f, 0, show_hidden_files, flt, lim);
        }
        assert(root.children@.skip(0) =~= root.children@);
        assert(ks.skip(0) =~= ks);
        assert(nav_rows_view(rows@) =~= Seq::<NavRowView>::empty());
        assert(selectable_source_indices@ =~= Set::<usize>::empty());
    }
    for i in 0..root.children.len()
        invariant
            root.children@.len() == ks.len(),
            kids_ok(root.children@.skip(i as int), ks.skip(i as int), f, 0, show_hidden_files, flt, lim),
            nav_forest_rows(f, ks, 0, show_hidden_files, flt, expansion_overrides@, true, lim)
                == nav_rows_view(rows@) + nav_forest_rows(f, ks.skip(i as int), 0, show_hidden_files, flt, expansion_overrides@, true, lim),
            nav_forest_sel(f, ks, 0, show_hidden_files, flt, lim)
                == selectable_source_indices@.union(nav_forest_sel(f, ks.skip(i as int), 0, show_hidden_files, flt, lim)),
    {
        let ghost xs = root.children@.skip(i as int);
        let ghost kk = ks.skip(i as int);
        proof {
            assert(xs[0] == root.children@[i as int]);
            assert(kk[0] == ks[i as int]);
            assert(xs.drop_first() =~= root.children@.skip(i + 1));
            assert(kk.drop_first() =~= ks.skip(i + 1));
        }
        let ghost before_sel = selectable_source_indices@;
        flatten_filtered_tree(
            &root.children[i],
            expansion_overrides,
            true,
            &mut rows,
            &mut selectable_source_indices,
            Ghost(f),
            Ghost(ks[i as int].0),
            Ghost(0),
            Ghost(show_hidden_files),
            Ghost(flt),
            Ghost(lim),
        );
        proof {
            let item = nav_item_sel(f, ks[i as int].0, 0, show_hidden_files, flt, lim);
            let rest = nav_forest_sel(f, ks.skip(i + 1), 0, show_hidden_files, flt, lim);
            assert(before_sel.union(item).union(rest) =~= before_sel.union(item.union(rest)));
        }
    }
    proof {
        assert(ks.skip(ks.len() as int) =~= Seq::<(Seq<char>, Seq<char>)>::empty());
        assert(nav_rows_view(rows@) + Seq::<NavRowView>::empty() =~= nav_rows_view(rows@));
        assert(selectable_source_indices@.union(Set::<usize>::empty()) =~= selectable_source_indices@);
    }
    NavigatorTreeProjection { rows, selectable_source_indices }
}

} // verus!
