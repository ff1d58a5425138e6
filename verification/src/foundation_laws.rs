//! What a foundation built from compare entries promises about its nodes:
//! the tree's shape, where statuses and capabilities come from, and how
//! source entries and nodes find each other.

use vstd::prelude::*;
use crate::compare_foundation::{
    CompareAnalysisAvailability, CompareBaseStatus, CompareDiffAvailability, CompareFoundation,
    CompareFoundationNode, CompareNodeKind, SourceRecord, agg_presence, agg_status, caps_from_core, child_keys, covered,
    default_caps, entry_comps, entry_prefix, fields_from_entries, kind_from_core, last_entry_at,
    lemma_child_key, lemma_node_facts, lemma_parent_present, lemma_root_present, node_shaped,
    legacy_row_of, opt_view, presence_of, record_of, records_of, root_shaped, sorted_strict,
    status_from_core, status_token,
};
use crate::view_models::CompareEntryRowViewModel;
use crate::core_model::{CompareEntry, EntryKind, EntryStatus};
use crate::paths;

verus! {

/// `f` is the foundation of `es`, as `CompareFoundation::from_compare_entries` states it.
pub open spec fn describes_entries(f: CompareFoundation, es: Seq<CompareEntry>) -> bool {
    &&& f.wf()
    &&& f.source_paths() == es.map_values(|e: CompareEntry| paths::normalize_path(e.relative_path@))
    &&& forall|key: Seq<char>|
        #[trigger] f.has_key(key) <==> (key.len() == 0 || covered(
            records_of(es),
            es.len() as int,
            key,
        ))
    &&& forall|key: Seq<char>|
        key.len() > 0 && #[trigger] f.has_key(key) ==> fields_from_entries(
            f.node_of(key),
            records_of(es),
            key,
        )
}

// ---------------------------------------------------------------------------
// Statuses and capabilities
// ---------------------------------------------------------------------------

/// What every node of the foundation of some entries says of its status and
/// capabilities: a node that an entry describes mirrors that entry's kind and
/// status (and is present on the sides the status names); any other node,
/// the root included, aggregates its children's statuses and presences. A
/// diff can be loaded only for a file, and an analysis only for a changed
/// file that an entry describes and whose diff can be loaded.
pub proof fn lemma_node_status_and_capabilities(
    f: CompareFoundation,
    es: Seq<CompareEntry>,
    key: Seq<char>,
)
    requires
        describes_entries(f, es),
        f.has_key(key),
    ensures
        ({
            let n = f.node_of(key);
            &&& n.source_index is None ==> n.base_status == agg_status(f.child_statuses(n))
                && n.side_presence == agg_presence(f.child_presences(n))
            &&& n.source_index matches Some(i) ==> (i as int) < es.len() && n.kind == kind_from_core(
                es[i as int].kind,
            ) && n.base_status == status_from_core(es[i as int].status) && n.side_presence
                == presence_of(n.base_status) && n.capabilities == caps_from_core(es[i as int])
            &&& (n.capabilities.diff is Available) ==> n.kind == CompareNodeKind::File
            &&& (n.capabilities.analysis is Available) ==> (n.capabilities.diff is Available)
                && n.kind == CompareNodeKind::File && n.base_status == CompareBaseStatus::Different
                && n.source_index is Some
        }),
{
    lemma_node_facts(f, key);
    lemma_root_present(f);
    let n = f.node_of(key);
    assert(f.aggregated_ok(n));
    if key.len() == 0 {
        assert(root_shaped(n));
        assert(n.capabilities == default_caps(CompareNodeKind::Root));
    } else {
        let recs = records_of(es);
        assert(fields_from_entries(n, recs, key));
        match last_entry_at(recs, recs.len() as int, key) {
            Some(t) => {
                lemma_last_entry_in_range(recs, recs.len() as int, key);
                let e = es[t];
                assert(recs[t] == record_of(e));
                assert(n.capabilities == caps_from_core(e));
                assert(n.source_index == Some(t as usize));
                if n.capabilities.diff is Available {
                    assert(e.kind == EntryKind::File);
                }
                if n.capabilities.analysis is Available {
                    assert(e.kind == EntryKind::File);
                    assert(e.status == EntryStatus::Different);
                }
            },
            None => {
                assert(n.capabilities == default_caps(CompareNodeKind::Directory));
            },
        }
    }
}

proof fn lemma_last_entry_in_range(recs: Seq<SourceRecord>, n: int, key: Seq<char>)
    ensures
        last_entry_at(recs, n, key) matches Some(t) ==> 0 <= t < n,
    decreases n,
{
    if n > 0 {
        lemma_last_entry_in_range(recs, n - 1, key);
    }
}

// ---------------------------------------------------------------------------
// The tree's shape
// ---------------------------------------------------------------------------

/// The nodes form a tree: the empty key is the root; a node's children are
/// strictly ascending, each a node whose parent is that node (none for the
/// root's children) and one level deeper; and every other node is listed
/// among its parent's children.
pub proof fn lemma_tree_shape(f: CompareFoundation, key: Seq<char>)
    requires
        f.wf(),
        f.has_key(key),
    ensures
        ({
            let n = f.node_of(key);
            let cs = child_keys(n);
            &&& key.len() == 0 ==> n.kind == CompareNodeKind::Root
            &&& sorted_strict(cs)
            &&& forall|m: int|
                0 <= m < cs.len() ==> f.has_key(#[trigger] cs[m]) && opt_view(
                    f.node_of(cs[m]).parent_relative_path,
                ) == (if key.len() == 0 {
                    None
                } else {
                    Some(key)
                }) && (n.path_depth < 65535 ==> f.node_of(cs[m]).path_depth == n.path_depth + 1)
            &&& key.len() > 0 ==> f.has_key(paths::key_parent(key)) && child_keys(
                f.node_of(paths::key_parent(key)),
            ).contains(key)
        }),
{
    lemma_node_facts(f, key);
    let n = f.node_of(key);
    let cs = child_keys(n);
    assert forall|m: int| 0 <= m < cs.len() implies f.has_key(#[trigger] cs[m]) && opt_view(
        f.node_of(cs[m]).parent_relative_path,
    ) == (if key.len() == 0 {
        None
    } else {
        Some(key)
    }) && (n.path_depth < 65535 ==> f.node_of(cs[m]).path_depth == n.path_depth + 1) by {
        lemma_child_key(f, n, m);
        let c = cs[m];
        lemma_node_facts(f, c);
        let cn = f.node_of(c);
        assert(node_shaped(cn));
        assert(paths::key_parent(c) == key);
        paths::lemma_normal_key_first(c);
        paths::lemma_last_slash_bound(c);
        match paths::last_slash(c) {
            Some(i) => {
                assert(i != 0);
                assert(c.take(i).len() == i);
            },
            None => {},
        }
    }
    if key.len() > 0 {
        lemma_parent_present(f, key);
        let p = paths::key_parent(key);
        lemma_node_facts(f, p);
        let pn = f.node_of(p);
        let i = f.index_of(key);
        assert(f.children_ok(pn));
        assert(paths::key_parent(f.key_at(i)) == pn.relative_path@);
        assert(child_keys(pn).contains(f.key_at(i)));
    } else {
        assert(root_shaped(n));
    }
}

/// The children that `immediate_children` lists for a focus are those of its
/// clamped node, in ascending order, each a node whose parent is the clamped
/// focus itself (none when the focus clamps to the root).
pub proof fn lemma_children_of_clamped_focus(f: CompareFoundation, focus: Option<Seq<char>>)
    requires
        f.wf(),
    ensures
        f.has_key(f.clamped_key(focus)),
        sorted_strict(child_keys(f.node_of(f.clamped_key(focus)))),
        forall|m: int|
            0 <= m < child_keys(f.node_of(f.clamped_key(focus))).len() ==> f.has_key(
                #[trigger] child_keys(f.node_of(f.clamped_key(focus)))[m],
            ) && opt_view(
                f.node_of(child_keys(f.node_of(f.clamped_key(focus)))[m]).parent_relative_path,
            ) == f.clamp_spec(focus),
{
    let k = f.clamped_key(focus);
    crate::compare_foundation::lemma_clamp_lands_on_directory(f, focus);
    lemma_root_present(f);
    match f.clamp_spec(focus) {
        Some(q) => {
            assert(k == q);
            if let Some(p) = focus {
                clamp_nonempty(f, paths::normalize_path(p));
            }
        },
        None => {
            assert(k =~= Seq::<char>::empty());
        },
    }
    lemma_tree_shape(f, k);
}

/// A clamp that lands on a node lands on a non-empty key.
proof fn clamp_nonempty(f: CompareFoundation, cand: Seq<char>)
    ensures
        f.clamp_from(cand) matches Some(q) ==> q.len() > 0,
    decreases cand.len(),
{
    let here = f.lookup(paths::normalize_path(cand));
    if here is Some && crate::compare_foundation::is_dir_kind(here->0.kind) {
    } else {
        match paths::parent_path(cand) {
            Some(p) => if p.len() < cand.len() {
                clamp_nonempty(f, p);
            },
            None => {},
        }
    }
}

// ---------------------------------------------------------------------------
// Source entries and their nodes
// ---------------------------------------------------------------------------

/// A path written in its one normal form: non-empty components, none of them
/// blank or padded with white space, joined by single `/`, without `\` and
/// without an outer `/`.
pub open spec fn canonical_path(p: Seq<char>) -> bool {
    &&& !p.contains('\\')
    &&& paths::components(p).len() > 0
    &&& paths::prefix_key(paths::components(p), paths::components(p).len() as int) == p
}

/// Entries with canonical paths, no two the same.
pub open spec fn distinct_canonical(es: Seq<CompareEntry>) -> bool {
    &&& forall|i: int| 0 <= i < es.len() ==> canonical_path(#[trigger] es[i].relative_path@)
    &&& forall|i: int, j: int|
        0 <= i < j < es.len() ==> es[i].relative_path@ != es[j].relative_path@
}

proof fn lemma_canonical_key(e: CompareEntry)
    requires
        canonical_path(e.relative_path@),
    ensures
        paths::normalize_path(e.relative_path@) == e.relative_path@,
        e.relative_path@.len() > 0,
        entry_comps(record_of(e)).len() > 0,
        entry_prefix(seq![record_of(e)], 0, entry_comps(record_of(e)).len() as int)
            == e.relative_path@,
{
    let p = e.relative_path@;
    let c = paths::components(p);
    paths::lemma_components_valid(p);
    paths::lemma_prefix_key_normal(c, c.len() as int);
    paths::lemma_prefix_key(c, c.len() as int);
}

proof fn lemma_full_key(es: Seq<CompareEntry>, j: int)
    requires
        0 <= j < es.len(),
        canonical_path(es[j].relative_path@),
    ensures
        records_of(es)[j] == record_of(es[j]),
        entry_comps(records_of(es)[j]).len() > 0,
        entry_prefix(records_of(es), j, entry_comps(records_of(es)[j]).len() as int)
            == es[j].relative_path@,
{
    lemma_canonical_key(es[j]);
}

proof fn lemma_last_entry_is(es: Seq<CompareEntry>, n: int, i: int)
    requires
        distinct_canonical(es),
        0 <= i < n <= es.len(),
    ensures
        last_entry_at(records_of(es), n, es[i].relative_path@) == Some(i),
    decreases n,
{
    let recs = records_of(es);
    lemma_full_key(es, n - 1);
    if n - 1 > i {
        assert(es[i].relative_path@ != es[n - 1].relative_path@);
        lemma_last_entry_is(es, n - 1, i);
    }
}

proof fn lemma_last_entry_none(es: Seq<CompareEntry>, n: int, key: Seq<char>)
    requires
        distinct_canonical(es),
        0 <= n <= es.len(),
        forall|j: int| 0 <= j < n ==> es[j].relative_path@ != key,
    ensures
        last_entry_at(records_of(es), n, key) is None,
    decreases n,
{
    if n > 0 {
        lemma_full_key(es, n - 1);
        lemma_last_entry_none(es, n - 1, key);
    }
}

/// For entries with distinct canonical paths, each entry's path is a node
/// that names that entry as its source, and is the source path recorded for
/// it; a node that no entry's path names (an implied parent directory) has
/// no source entry. So `source_node(i)` gives the node of entry `i` and
/// `source_index_for_relative_path` of its path gives `i` back.
pub proof fn lemma_source_entries_and_nodes(f: CompareFoundation, es: Seq<CompareEntry>)
    requires
        describes_entries(f, es),
        distinct_canonical(es),
    ensures
        f.source_paths().len() == es.len(),
        forall|i: int|
            0 <= i < es.len() ==> {
                let p = #[trigger] es[i].relative_path@;
                &&& f.source_paths()[i] == p
                &&& f.has_key(p)
                &&& f.node_of(p).relative_path@ == p
                &&& f.node_of(p).source_index == Some(i as usize)
            },
        forall|key: Seq<char>|
            key.len() > 0 && #[trigger] f.has_key(key) && (forall|j: int|
                0 <= j < es.len() ==> es[j].relative_path@ != key) ==> f.node_of(
                key,
            ).source_index is None,
{
    assert forall|i: int| 0 <= i < es.len() implies {
        let p = #[trigger] es[i].relative_path@;
        &&& f.source_paths()[i] == p
        &&& f.has_key(p)
        &&& f.node_of(p).relative_path@ == p
        &&& f.node_of(p).source_index == Some(i as usize)
    } by {
        lemma_entry_node(f, es, i);
    }
    assert forall|key: Seq<char>|
        key.len() > 0 && #[trigger] f.has_key(key) && (forall|j: int|
            0 <= j < es.len() ==> es[j].relative_path@ != key) implies f.node_of(
        key,
    ).source_index is None by {
        lemma_last_entry_none(es, es.len() as int, key);
        assert(fields_from_entries(f.node_of(key), records_of(es), key));
    }
}

proof fn lemma_entry_node(f: CompareFoundation, es: Seq<CompareEntry>, i: int)
    requires
        describes_entries(f, es),
        distinct_canonical(es),
        0 <= i < es.len(),
    ensures
        ({
            let p = es[i].relative_path@;
            &&& f.source_paths()[i] == p
            &&& f.has_key(p)
            &&& f.node_of(p).relative_path@ == p
            &&& f.node_of(p).source_index == Some(i as usize)
        }),
{
    let recs = records_of(es);
    let p = es[i].relative_path@;
    assert(canonical_path(p));
    lemma_full_key(es, i);
    lemma_canonical_key(es[i]);
    let k = entry_comps(recs[i]).len() as int;
    assert(entry_prefix(recs, i, k) == p);
    assert(covered(recs, es.len() as int, p));
    assert(f.has_key(p));
    lemma_node_facts(f, p);
    lemma_last_entry_is(es, es.len() as int, i);
    assert(fields_from_entries(f.node_of(p), recs, p));
}

proof fn lemma_source_nodes_upto(f: CompareFoundation, es: Seq<CompareEntry>, n: int)
    requires
        describes_entries(f, es),
        distinct_canonical(es),
        0 <= n <= es.len(),
    ensures
        f.source_node_seq_upto(n).len() == n,
        forall|i: int|
            0 <= i < n ==> #[trigger] f.source_node_seq_upto(n)[i] == f.node_of(
                es[i].relative_path@,
            ),
    decreases n,
{
    if n > 0 {
        lemma_source_nodes_upto(f, es, n - 1);
        lemma_source_entries_and_nodes(f, es);
        let p = es[n - 1].relative_path@;
        assert(f.source_paths()[n - 1] == p);
        assert(f.has_key(p));
        lemma_canonical_key(es[n - 1]);
        assert(p.len() > 0) by {
            paths::lemma_components_valid(p);
            paths::lemma_prefix_key(paths::components(p), paths::components(p).len() as int);
        }
    }
}

/// For entries with distinct canonical paths, the source nodes (and so the
/// flat result rows) come in entry order, one for each entry, each the node
/// of that entry's path.
pub proof fn lemma_source_nodes_in_entry_order(f: CompareFoundation, es: Seq<CompareEntry>)
    requires
        describes_entries(f, es),
        distinct_canonical(es),
    ensures
        f.source_node_seq().len() == es.len(),
        forall|i: int|
            0 <= i < es.len() ==> #[trigger] f.source_node_seq()[i] == f.node_of(
                es[i].relative_path@,
            ),
{
    lemma_source_entries_and_nodes(f, es);
    lemma_source_nodes_upto(f, es, es.len() as int);
}

/// For entries with distinct canonical paths, the flat result rows of their
/// foundation keep the entries' order, one row per entry with its path; a
/// row's status is its node's base status, its blocked reasons are present
/// exactly when loading is blocked, and a row that can load an analysis can
/// load its diff.
pub proof fn lemma_legacy_rows_follow_entries(
    f: CompareFoundation,
    es: Seq<CompareEntry>,
    rows: Seq<CompareEntryRowViewModel>,
)
    requires
        describes_entries(f, es),
        distinct_canonical(es),
        rows.len() == f.source_node_seq().len(),
        forall|i: int| 0 <= i < rows.len() ==> legacy_row_of(#[trigger] rows[i], f.source_node_seq()[i]),
    ensures
        rows.len() == es.len(),
        forall|i: int|
            0 <= i < rows.len() ==> {
                let row = #[trigger] rows[i];
                &&& row.relative_path@ == es[i].relative_path@
                &&& row.status@ == status_token(f.node_of(es[i].relative_path@).base_status)
                &&& row.can_load_diff == (row.diff_blocked_reason is None)
                &&& row.can_load_analysis == (row.analysis_blocked_reason is None)
                &&& row.can_load_analysis ==> row.can_load_diff
            },
{
    lemma_source_nodes_in_entry_order(f, es);
    lemma_source_entries_and_nodes(f, es);
    assert forall|i: int| 0 <= i < rows.len() implies {
        let row = #[trigger] rows[i];
        &&& row.relative_path@ == es[i].relative_path@
        &&& row.status@ == status_token(f.node_of(es[i].relative_path@).base_status)
        &&& row.can_load_diff == (row.diff_blocked_reason is None)
        &&& row.can_load_analysis == (row.analysis_blocked_reason is None)
        &&& row.can_load_analysis ==> row.can_load_diff
    } by {
        let p = es[i].relative_path@;
        assert(f.has_key(p));
        assert(f.source_node_seq()[i] == f.node_of(p));
        assert(legacy_row_of(rows[i], f.node_of(p)));
        lemma_node_status_and_capabilities(f, es, p);
    }
}

// ---------------------------------------------------------------------------
// Focus clamping
// ---------------------------------------------------------------------------

/// `q` is a node that a focus may rest on: a directory target.
pub open spec fn is_dir_node(f: CompareFoundation, q: Seq<char>) -> bool {
    f.has_key(q) && crate::compare_foundation::is_dir_kind(f.node_of(q).kind)
}

proof fn lemma_clamp_prefix(f: CompareFoundation, c: Seq<Seq<char>>, k: int)
    requires
        paths::valid_pieces(c),
        1 <= k <= c.len(),
    ensures
        match f.clamp_from(paths::prefix_key(c, k)) {
            Some(q) => exists|j: int|
                1 <= j <= k && q == paths::prefix_key(c, j) && is_dir_node(f, q) && forall|i: int|
                    j < i <= k ==> !is_dir_node(f, #[trigger] paths::prefix_key(c, i)),
            None => forall|i: int| 1 <= i <= k ==> !is_dir_node(f, #[trigger] paths::prefix_key(c, i)),
        },
    decreases k,
{
    let key = paths::prefix_key(c, k);
    paths::lemma_prefix_key_normal(c, k);
    paths::lemma_prefix_key(c, k);
    assert(paths::normalize_path(key) == key);
    if is_dir_node(f, key) {
        assert(f.clamp_from(key) == Some(key));
    } else {
        assert(paths::parent_path(key) == match paths::last_slash(key) {
            Some(i) => Some(key.take(i)),
            None => None::<Seq<char>>,
        });
        if k == 1 {
            assert(f.clamp_from(key) is None);
        } else {
            let p = paths::prefix_key(c, k - 1);
            assert(paths::key_parent(key) == p);
            paths::lemma_key_parent_shorter(key);
            assert(paths::parent_path(key) == Some(p));
            assert(f.clamp_from(key) == f.clamp_from(p));
            lemma_clamp_prefix(f, c, k - 1);
        }
    }
}

/// Where a focus on a canonical path settles: on the longest of the path and
/// its ancestors (the '/'-prefixes made of its first components) whose node
/// is a directory target, or on the root when none is.
pub proof fn lemma_clamp_is_longest_directory_prefix(f: CompareFoundation, p: Seq<char>)
    requires
        canonical_path(p),
    ensures
        ({
            let c = paths::components(p);
            let n = c.len() as int;
            match f.clamp_spec(Some(p)) {
                Some(q) => exists|j: int|
                    1 <= j <= n && q == paths::prefix_key(c, j) && is_dir_node(f, q) && forall|i: int|
                        j < i <= n ==> !is_dir_node(f, #[trigger] paths::prefix_key(c, i)),
                None => forall|i: int|
                    1 <= i <= n ==> !is_dir_node(f, #[trigger] paths::prefix_key(c, i)),
            }
        }),
{
    let c = paths::components(p);
    paths::lemma_components_valid(p);
    paths::lemma_prefix_key_normal(c, c.len() as int);
    assert(paths::normalize_path(p) == p);
    lemma_clamp_prefix(f, c, c.len() as int);
}

// ---------------------------------------------------------------------------
// The empty foundation
// ---------------------------------------------------------------------------

/// Every field of a node, strings taken by their text.
pub open spec fn node_view(n: CompareFoundationNode) -> (
    Seq<char>,
    Seq<char>,
    Option<Seq<char>>,
    CompareNodeKind,
    u16,
    Option<usize>,
    crate::compare_foundation::CompareSidePresence,
    CompareBaseStatus,
    crate::compare_foundation::CompareFoundationDetail,
    crate::compare_foundation::CompareEntryCapabilities,
    Seq<Seq<char>>,
) {
    (
        n.relative_path@,
        n.display_name@,
        opt_view(n.parent_relative_path),
        n.kind,
        n.path_depth,
        n.source_index,
        n.side_presence,
        n.base_status,
        n.detail,
        n.capabilities,
        child_keys(n),
    )
}

/// Two foundations hold the same thing: the same source paths, the same
/// keys, and at each key a node with the same fields.
pub open spec fn same_foundation(a: CompareFoundation, b: CompareFoundation) -> bool {
    &&& a.source_paths() == b.source_paths()
    &&& forall|key: Seq<char>| #[trigger] a.has_key(key) == b.has_key(key)
    &&& forall|key: Seq<char>|
        #[trigger] a.has_key(key) ==> node_view(a.node_of(key)) == node_view(b.node_of(key))
}

/// There is one empty foundation: `CompareFoundation::empty()`,
/// `CompareFoundation::default()` and the foundation of no entries all
/// satisfy `is_empty_foundation`, and any two foundations that do hold the
/// same thing.
pub proof fn lemma_empty_foundations_agree(a: CompareFoundation, b: CompareFoundation)
    requires
        a.is_empty_foundation(),
        b.is_empty_foundation(),
    ensures
        same_foundation(a, b),
{
    let e = Seq::<char>::empty();
    assert(a.source_paths() =~= b.source_paths());
    assert forall|key: Seq<char>| #[trigger] a.has_key(key) implies node_view(a.node_of(key))
        == node_view(b.node_of(key)) by {
        assert(key =~= e);
        let na = a.node_of(e);
        let nb = b.node_of(e);
        assert(root_shaped(na) && root_shaped(nb));
        assert(child_keys(na) =~= child_keys(nb));
        assert(na.relative_path@ =~= nb.relative_path@);
    }
}

/// In the foundation of some entries, the node of a file entry that exists
/// on one side only, or is equal on both sides, can load its detailed diff,
/// and a flat row of that node can load it and shows no blocked reason.
pub proof fn lemma_one_sided_and_equal_file_nodes_load_diff(
    f: CompareFoundation,
    es: Seq<CompareEntry>,
    key: Seq<char>,
    row: CompareEntryRowViewModel,
)
    requires
        describes_entries(f, es),
        f.has_key(key),
        f.node_of(key).source_index matches Some(i) && (i as int) < es.len() && es[i as int].kind
            == EntryKind::File && (es[i as int].status == EntryStatus::LeftOnly || es[i as int].status
            == EntryStatus::RightOnly || es[i as int].status == EntryStatus::Equal),
        legacy_row_of(row, f.node_of(key)),
    ensures
        f.node_of(key).capabilities.diff == CompareDiffAvailability::Available,
        row.can_load_diff,
        row.diff_blocked_reason is None,
{
    lemma_node_status_and_capabilities(f, es, key);
    let i = f.node_of(key).source_index->0;
    crate::compare_foundation::lemma_diff_capability_of_entry(es[i as int]);
}

} // verus!
