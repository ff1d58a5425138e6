//! Visible tree projection for the Compare View.

use vstd::prelude::*;
use crate::compare_foundation::{
    CompareFocusPath, CompareFoundation, CompareFoundationNode, child_keys, is_dir_kind,
    lemma_child_key, lemma_max_key_len,
};
use crate::compare_foundation;
use crate::expansion::ExpansionOverrides;
use crate::paths;
use crate::paths::is_hidden_relative_path;

verus! {

/// One visible row of the Compare View tree.
#[derive(Debug, Clone, PartialEq, Eq)]
pub struct CompareTreeVisibleRow {
    pub relative_path: String,
    pub depth: u16,
    pub is_directory: bool,
    pub is_expandable: bool,
    pub is_expanded: bool,
}

/// The values of a row: path, depth, directory, expandable, expanded.
pub open spec fn row_view(r: CompareTreeVisibleRow) -> (Seq<char>, u16, bool, bool, bool) {
    (r.relative_path@, r.depth, r.is_directory, r.is_expandable, r.is_expanded)
}

pub open spec fn rows_view(rs: Seq<CompareTreeVisibleRow>) -> Seq<(Seq<char>, u16, bool, bool, bool)> {
    rs.map_values(|r: CompareTreeVisibleRow| row_view(r))
}

/// Whether a directory is expanded: the recorded choice, else the first level only.
pub open spec fn expansion_of(ov: Map<Seq<char>, bool>, key: Seq<char>, depth: u16) -> bool {
    if ov.contains_key(key) {
        ov[key]
    } else {
        depth <= 1
    }
}

/// The row of node `n` reached through `key`, below an anchor at depth `ad`.
pub open spec fn tree_row(
    n: CompareFoundationNode,
    key: Seq<char>,
    ad: u16,
    ov: Map<Seq<char>, bool>,
) -> (Seq<char>, u16, bool, bool, bool) {
    let is_dir = is_dir_kind(n.kind);
    let expandable = is_dir && n.child_relative_paths@.len() > 0;
    let expanded = expandable && expansion_of(ov, key, n.path_depth);
    (n.relative_path@, n.path_depth.saturating_sub(ad.saturating_add(1)), is_dir, expandable, expanded)
}

/// Rows of the subtree at `key`: its row, then, when expanded, the rows of
/// its children in order; nothing for a missing or (unless shown) hidden node.
pub open spec fn item_rows(
    f: CompareFoundation,
    key: Seq<char>,
    plen: int,
    ad: u16,
    show: bool,
    ov: Map<Seq<char>, bool>,
    lim: int,
) -> Seq<(Seq<char>, u16, bool, bool, bool)>
    decreases lim - plen, 0int,
{
    let k = paths::normalize_path(key);
    if !f.has_key(k) {
        Seq::empty()
    } else {
        let n = f.node_of(k);
        if !show && paths::is_hidden_path(n.relative_path@) {
            Seq::empty()
        } else {
            let row = tree_row(n, key, ad, ov);
            let nl = n.relative_path@.len() as int;
            if row.4 && plen < nl && nl <= lim {
                seq![row] + forest_rows(f, child_keys(n), nl, ad, show, ov, lim)
            } else {
                seq![row]
            }
        }
    }
}

/// Rows of the subtrees at `cs`, one after another.
pub open spec fn forest_rows(
    f: CompareFoundation,
    cs: Seq<Seq<char>>,
    plen: int,
    ad: u16,
    show: bool,
    ov: Map<Seq<char>, bool>,
    lim: int,
) -> Seq<(Seq<char>, u16, bool, bool, bool)>
    decreases lim - plen, cs.len(),
{
    if cs.len() == 0 {
        Seq::empty()
    } else {
        item_rows(f, cs[0], plen, ad, show, ov, lim) + forest_rows(
            f,
            cs.drop_first(),
            plen,
            ad,
            show,
            ov,
            lim,
        )
    }
}

/// Whether a directory is expanded: the recorded choice, else the first level only.
pub fn compare_tree_expansion_state(
    key: &str,
    path_depth: u16,
    expansion_overrides: &ExpansionOverrides,
) -> (r: bool)
    ensures
        r == expansion_of(expansion_overrides@, key@, path_depth),
{
    match expansion_overrides.get(key) {
        Some(v) => v,
        None => path_depth <= 1,
    }
}

fn flatten_compare_tree(
    foundation: &CompareFoundation,
    key: &str,
    anchor_depth: u16,
    show_hidden_files: bool,
    expansion_overrides: &ExpansionOverrides,
    out: &mut Vec<CompareTreeVisibleRow>,
    Ghost(plen): Ghost<int>,
    Ghost(lim): Ghost<int>,
)
    requires
        foundation.wf(),
        forall|i: int| 0 <= i < foundation.node_seq().len() ==> (#[trigger] foundation.key_at(i)).len() <= lim,
        paths::normalize_path(key@).len() > plen,
    ensures
        rows_view(final(out)@) == rows_view(old(out)@) + item_rows(
            *foundation,
            key@,
            plen,
            anchor_depth,
            show_hidden_files,
            expansion_overrides@,
            lim,
        ),
    decreases lim - plen, 0int,
{
    let ghost ov = expansion_overrides@;
    let ghost start = rows_view(out@);
    let node = match foundation.node(key) {
        Some(n) => n,
        None => {
            assert(rows_view(out@) =~= start + Seq::empty());
            return ;
        },
    };
    let ghost k = paths::normalize_path(key@);
    proof {
        compare_foundation::lemma_node_facts(*foundation, k);
    }
    if !show_hidden_files && is_hidden_relative_path(node.relative_path.as_str()) {
        assert(rows_view(out@) =~= start + Seq::empty());
        return ;
    }
    let is_directory = node.is_directory_target();
    let is_expandable = is_directory && node.child_relative_paths.len() > 0;
    let is_expanded = is_expandable && compare_tree_expansion_state(
        key,
        node.path_depth,
        expansion_overrides,
    );
    out.push(
        CompareTreeVisibleRow {
            relative_path: node.relative_path.clone(),
            depth: node.path_depth.saturating_sub(anchor_depth.saturating_add(1)),
            is_directory,
            is_expandable,
            is_expanded,
        },
    );
    let ghost row = tree_row(*node, key@, anchor_depth, ov);
    proof {
        assert(rows_view(out@) =~= start + seq![row]);
    }
    if !is_expanded {
        return ;
    }
    let ghost nl = node.relative_path@.len() as int;
    let ghost cs = child_keys(*node);
    proof {
        assert(nl <= lim);
        assert(plen < nl);
        assert(foundation.children_ok(*node));
        assert(cs.skip(0) =~= cs);
    }
    for m in 0..node.child_relative_paths.len()
        invariant
            foundation.wf(),
            forall|i: int| 0 <= i < foundation.node_seq().len() ==> (#[trigger] foundation.key_at(i)).len() <= lim,
            foundation.children_ok(*node),
            cs == child_keys(*node),
            nl == node.relative_path@.len(),
            plen < nl <= lim,
            start + item_rows(*foundation, key@, plen, anchor_depth, show_hidden_files, ov, lim)
                == rows_view(out@) + forest_rows(*foundation, cs.skip(m as int), nl, anchor_depth, show_hidden_files, ov, lim),
            ov == expansion_overrides@,
    {
        proof {
            lemma_child_key(*foundation, *node, m as int);
            assert(cs.skip(m as int).drop_first() =~= cs.skip(m + 1));
            assert(cs.skip(m as int)[0] == cs[m as int]);
        }
        let ghost before = rows_view(out@);
        flatten_compare_tree(
            foundation,
            node.child_relative_paths[m].as_str(),
            anchor_depth,
            show_hidden_files,
            expansion_overrides,
            out,
            Ghost(nl),
            Ghost(lim),
        );
        proof {
            assert(node.child_relative_paths@[m as int]@ == cs[m as int]);
        }
    }
    proof {
        assert(cs.skip(cs.len() as int) =~= Seq::<Seq<char>>::empty());
    }
}

/// The rows of the Compare View tree under the clamped focus.
pub open spec fn compare_tree_rows_spec(
    f: CompareFoundation,
    focus: Option<Seq<char>>,
    show: bool,
    ov: Map<Seq<char>, bool>,
) -> Seq<(Seq<char>, u16, bool, bool, bool)> {
    let ak = paths::normalize_path(f.clamped_key(focus));
    if !f.has_key(ak) {
        Seq::empty()
    } else {
        let a = f.node_of(ak);
        forest_rows(f, child_keys(a), a.relative_path@.len() as int, a.path_depth, show, ov, f.max_key_len())
    }
}

/// The visible rows of the tree below the clamped focus: each child subtree
/// in path order, a directory's children shown only while it is expanded,
/// hidden entries left out unless they are to be shown.
#[verifier::spinoff_prover]
#[verifier::rlimit(50)]
pub fn project_compare_tree_rows(
    foundation: &CompareFoundation,
    focus: &CompareFocusPath,
    show_hidden_files: bool,
    expansion_overrides: &ExpansionOverrides,
) -> (r: Vec<CompareTreeVisibleRow>)
    ensures
        rows_view(r@) == compare_tree_rows_spec(*foundation, focus@, show_hidden_files, expansion_overrides@),
{
    proof {
        use_type_invariant(foundation);
    }
    let clamped = foundation.clamp_compare_focus_path(focus);
    let anchor_key = clamped.raw_text();
    let mut rows: Vec<CompareTreeVisibleRow> = Vec::new();
    let anchor_node = match foundation.node(anchor_key.as_str()) {
        Some(n) => n,
        None => {
            assert(rows_view(rows@) =~= Seq::<(Seq<char>, u16, bool, bool, bool)>::empty());
            return rows;
        },
    };
    let ghost ak = paths::normalize_path(anchor_key@);
    let ghost lim = foundation.max_key_len();
    let ghost cs = child_keys(*anchor_node);
    let ghost al = anchor_node.relative_path@.len() as int;
    let ghost ov = expansion_overrides@;
    proof {
        compare_foundation::lemma_node_facts(*foundation, ak);
        lemma_max_key_len(*foundation);
        assert(cs.skip(0) =~= cs);
        assert(rows_view(rows@) =~= Seq::<(Seq<char>, u16, bool, bool, bool)>::empty());
    }
    for m in 0..anchor_node.child_relative_paths.len()
        invariant
            foundation.wf(),
            forall|i: int| 0 <= i < foundation.node_seq().len() ==> (#[trigger] foundation.key_at(i)).len() <= lim,
            foundation.children_ok(*anchor_node),
            cs == child_keys(*anchor_node),
            al == anchor_node.relative_path@.len(),
            ov == expansion_overrides@,
            forest_rows(*foundation, cs, al, anchor_node.path_depth, show_hidden_files, ov, lim)
                == rows_view(rows@) + forest_rows(*foundation, cs.skip(m as int), al, anchor_node.path_depth, show_hidden_files, ov, lim),
    {
        proof {
            lemma_child_key(*foundation, *anchor_node, m as int);
            assert(cs.skip(m as int).drop_first() =~= cs.skip(m + 1));
            assert(cs.skip(m as int)[0] == cs[m as int]);
            assert(anchor_node.child_relative_paths@[m as int]@ == cs[m as int]);
        }
        match foundation.node(anchor_node.child_relative_paths[m].as_str()) {
            Some(child) => {
                proof {
                    compare_foundation::lemma_node_facts(*foundation, cs[m as int]);
                }
                flatten_compare_tree(
                    foundation,
                    child.relative_path.as_str(),
                    anchor_node.path_depth,
                    show_hidden_files,
                    expansion_overrides,
                    &mut rows,
                    Ghost(al),
                    Ghost(lim),
                );
            },
            None => {},
        }
    }
    proof {
        assert(cs.skip(cs.len() as int) =~= Seq::<Seq<char>>::empty());
        assert(rows_view(rows@) =~= rows_view(rows@) + Seq::<(Seq<char>, u16, bool, bool, bool)>::empty());
    }
    rows
}

/// What `compare_tree_toggle_target` gives: the trimmed key and depth of an
/// expandable directory.
pub open spec fn toggle_spec(f: CompareFoundation, key: Seq<char>) -> Option<(Seq<char>, u16)> {
    let t = crate::text::trim(key);
    let k = paths::normalize_path(t);
    if t.len() == 0 || !f.has_key(k) {
        None
    } else {
        let n = f.node_of(k);
        if !is_dir_kind(n.kind) || n.child_relative_paths@.len() == 0 {
            None
        } else {
            Some((t, n.path_depth))
        }
    }
}

/// The key and depth of the directory that toggling `key` expands or collapses.
pub fn compare_tree_toggle_target(foundation: &CompareFoundation, key: &str) -> (r: Option<(String, u16)>)
    ensures
        r is Some == toggle_spec(*foundation, key@) is Some,
        r matches Some(p) ==> toggle_spec(*foundation, key@) == Some((p.0@, p.1)),
{
    proof {
        use_type_invariant(foundation);
    }
    let normalized_key = crate::text::trim_str(key);
    if normalized_key.as_str().unicode_len() == 0 {
        return None;
    }
    let node = match foundation.node(normalized_key.as_str()) {
        Some(n) => n,
        None => {
            return None;
        },
    };
    if !node.is_directory_target() || node.child_relative_paths.len() == 0 {
        return None;
    }
    Some((normalized_key, node.path_depth))
}

/// Parent key recorded on the node of `key`.
pub open spec fn parent_of_key(f: CompareFoundation, key: Seq<char>) -> Option<Seq<char>> {
    let k = paths::normalize_path(key);
    if f.has_key(k) {
        compare_foundation::opt_view(f.node_of(k).parent_relative_path)
    } else {
        None
    }
}

/// `anchor` is `key` or one of the ancestors recorded above it.
pub open spec fn contains_from(f: CompareFoundation, anchor: Seq<char>, key: Seq<char>) -> bool
    decreases key.len(),
{
    if key == anchor {
        true
    } else {
        match parent_of_key(f, key) {
            Some(p) => if p.len() < key.len() {
                contains_from(f, anchor, p)
            } else {
                false
            },
            None => false,
        }
    }
}

/// What `compare_tree_contains_path` gives.
pub open spec fn contains_spec(f: CompareFoundation, anchor: Seq<char>, path: Seq<char>) -> bool {
    if anchor.len() == 0 {
        f.has_key(paths::normalize_path(path))
    } else {
        contains_from(f, anchor, path)
    }
}

/// The recorded parent of a node is shorter than the path that names it.
proof fn lemma_parent_of_key_shorter(f: CompareFoundation, key: Seq<char>)
    requires
        f.wf(),
    ensures
        parent_of_key(f, key) matches Some(p) ==> p.len() < key.len(),
{
    let k = paths::normalize_path(key);
    if f.has_key(k) {
        compare_foundation::lemma_node_facts(f, k);
        paths::lemma_normalize_len(key);
        if k.len() > 0 {
            paths::lemma_key_parent_shorter(k);
        }
    }
}

/// Whether the node of `relative_path` lies at or below `anchor_key`.
pub fn compare_tree_contains_path(
    foundation: &CompareFoundation,
    anchor_key: &str,
    relative_path: &str,
) -> (r: bool)
    ensures
        r == contains_spec(*foundation, anchor_key@, relative_path@),
{
    proof {
        use_type_invariant(foundation);
    }
    if anchor_key.unicode_len() == 0 {
        return foundation.node(relative_path).is_some();
    }
    let mut key = crate::text::to_string(relative_path);
    loop
        invariant
            foundation.wf(),
            anchor_key@.len() > 0,
            contains_from(*foundation, anchor_key@, key@) == contains_from(
                *foundation,
                anchor_key@,
                relative_path@,
            ),
        decreases key@.len(),
    {
        if crate::text::str_eq(key.as_str(), anchor_key) {
            return true;
        }
        proof {
            lemma_parent_of_key_shorter(*foundation, key@);
        }
        let next = match foundation.node(key.as_str()) {
            Some(n) => match &n.parent_relative_path {
                Some(p) => p.clone(),
                None => {
                    return false;
                },
            },
            None => {
                return false;
            },
        };
        key = next;
    }
}

/// Targets revealed while walking up from `key` to the anchor, nearest first.
pub open spec fn reveal_walk(f: CompareFoundation, anchor: Seq<char>, key: Seq<char>) -> Seq<
    (Seq<char>, u16),
>
    decreases key.len(),
{
    if key == anchor {
        Seq::empty()
    } else {
        let here = match toggle_spec(f, key) {
            Some(t) => seq![t],
            None => Seq::empty(),
        };
        match parent_of_key(f, key) {
            Some(p) => if p.len() < key.len() {
                here + reveal_walk(f, anchor, p)
            } else {
                here
            },
            None => here,
        }
    }
}

/// What `compare_tree_reveal_targets` gives.
pub open spec fn reveal_spec(f: CompareFoundation, focus: Option<Seq<char>>, path: Seq<char>) -> Seq<
    (Seq<char>, u16),
> {
    let t = crate::text::trim(path);
    let anchor = f.clamped_key(focus);
    if t.len() == 0 || !contains_spec(f, anchor, t) {
        Seq::empty()
    } else {
        match parent_of_key(f, t) {
            Some(p) => reveal_walk(f, anchor, p).reverse(),
            None => Seq::empty(),
        }
    }
}

/// The directories to expand, outermost first, to show `relative_path` below the focus.
pub fn compare_tree_reveal_targets(
    foundation: &CompareFoundation,
    focus: &CompareFocusPath,
    relative_path: &str,
) -> (r: Vec<(String, u16)>)
    ensures
        r@.len() == reveal_spec(*foundation, focus@, relative_path@).len(),
        forall|i: int|
            0 <= i < r@.len() ==> (#[trigger] r@[i]).0@ == reveal_spec(*foundation, focus@, relative_path@)[i].0
                && r@[i].1 == reveal_spec(*foundation, focus@, relative_path@)[i].1,
{
    proof {
        use_type_invariant(foundation);
    }
    let mut targets: Vec<(String, u16)> = Vec::new();
    let normalized_path = crate::text::trim_str(relative_path);
    if normalized_path.as_str().unicode_len() == 0 {
        return targets;
    }
    let clamped = foundation.clamp_compare_focus_path(focus);
    let anchor_key = clamped.raw_text();
    if !compare_tree_contains_path(foundation, anchor_key.as_str(), normalized_path.as_str()) {
        return targets;
    }
    proof {
        lemma_parent_of_key_shorter(*foundation, normalized_path@);
    }
    let mut key = match foundation.node(normalized_path.as_str()) {
        Some(n) => match &n.parent_relative_path {
            Some(p) => p.clone(),
            None => {
                return targets;
            },
        },
        None => {
            return targets;
        },
    };
    let ghost whole = reveal_walk(*foundation, anchor_key@, key@);
    loop
        invariant_except_break
            whole == targets@.map_values(|t: (String, u16)| (t.0@, t.1)) + reveal_walk(
                *foundation,
                anchor_key@,
                key@,
            ),
        invariant
            foundation.wf(),
        ensures
            whole == targets@.map_values(|t: (String, u16)| (t.0@, t.1)),
        decreases key@.len(),
    {
        let ghost before = targets@.map_values(|t: (String, u16)| (t.0@, t.1));
        if crate::text::str_eq(key.as_str(), anchor_key.as_str()) {
            assert(targets@.map_values(|t: (String, u16)| (t.0@, t.1)) =~= before + Seq::empty());
            break;
        }
        proof {
            lemma_parent_of_key_shorter(*foundation, key@);
        }
        match compare_tree_toggle_target(foundation, key.as_str()) {
            Some(target) => {
                targets.push(target);
            },
            None => {},
        }
        let ghost here = match toggle_spec(*foundation, key@) {
            Some(t) => seq![t],
            None => Seq::<(Seq<char>, u16)>::empty(),
        };
        proof {
            assert(targets@.map_values(|t: (String, u16)| (t.0@, t.1)) =~= before + here);
        }
        let next = match foundation.node(key.as_str()) {
            Some(n) => match &n.parent_relative_path {
                Some(p) => p.clone(),
                None => {
                    assert(whole =~= targets@.map_values(|t: (String, u16)| (t.0@, t.1)));
                    break;
                },
            },
            None => {
                assert(whole =~= targets@.map_values(|t: (String, u16)| (t.0@, t.1)));
                break;
            },
        };
        key = next;
    }
    let ghost fwd = targets@.map_values(|t: (String, u16)| (t.0@, t.1));
    let ghost n = fwd.len();
    let mut out: Vec<(String, u16)> = Vec::new();
    while targets.len() > 0
        invariant
            fwd.len() == n,
            targets@.len() <= n,
            targets@.map_values(|t: (String, u16)| (t.0@, t.1)) == fwd.take(targets@.len() as int),
            out@.map_values(|t: (String, u16)| (t.0@, t.1)) == fwd.subrange(
                targets@.len() as int,
                n as int,
            ).reverse(),
        decreases targets@.len(),
    {
        let ghost l = targets@.len() as int;
        let ghost prev = out@.map_values(|t: (String, u16)| (t.0@, t.1));
        let t = targets.pop().unwrap();
        proof {
            assert(fwd.take(l)[l - 1] == (t.0@, t.1));
            assert(targets@.map_values(|t: (String, u16)| (t.0@, t.1)) =~= fwd.take(l - 1));
        }
        out.push(t);
        proof {
            assert(out@.map_values(|t: (String, u16)| (t.0@, t.1)) =~= prev.push((t.0@, t.1)));
            assert(fwd.subrange(l - 1, n as int).reverse() =~= fwd.subrange(l, n as int).reverse().push(
                fwd[l - 1],
            ));
        }
    }
    proof {
        assert(fwd.subrange(0, n as int) =~= fwd);
    }
    out
}

} // verus!
