//! The campaign's table of contents: its tree document and the pure
//! serialization between that tree and the persisted `toc_entries` rows.
//!
//! `snapshot_toc` walks the live tree into rows with stable row ids;
//! `restore_toc` rebuilds the tree from rows plus the current pages, in
//! topological order, appending every page no row references (an orphan)
//! at the root.
use vstd::prelude::*;

use crate::ids::{fresh_row_id, ConversationId, PageId};

verus! {

// ---------------------------------------------------------------------------
// Entry and row types
// ---------------------------------------------------------------------------

/// Visibility of a page, block or ToC node.
#[derive(Debug, Clone, Copy, PartialEq, Eq, Hash, Structural)]
pub enum Status {
    Known,
    GmOnly,
}

/// The kind of page a ToC page node stands for; a session carries its
/// ordinal so a client can render "Session {ordinal}: {name}".
#[derive(Debug, Clone, Copy, PartialEq, Eq, Structural)]
pub enum TocPageKind {
    Entity,
    Template,
    Session { ordinal: i64 },
}

/// What a ToC node holds.
#[derive(Debug, Clone, PartialEq, Eq)]
pub enum TocEntry {
    Folder { title: String, visibility: Status },
    Page { title: String, page_id: PageId, page_kind: TocPageKind, visibility: Status },
    Suggestion { conversation_id: ConversationId, title: Option<String>, visibility: Status },
}

/// The variant of a ToC entry.
#[derive(Debug, Clone, Copy, PartialEq, Eq, Structural)]
pub enum TocEntryKind {
    Folder,
    Page,
    Suggestion,
}

impl TocEntry {
    pub fn kind(&self) -> (k: TocEntryKind)
        ensures
            k == (match *self {
                TocEntry::Folder { .. } => TocEntryKind::Folder,
                TocEntry::Page { .. } => TocEntryKind::Page,
                TocEntry::Suggestion { .. } => TocEntryKind::Suggestion,
            }),
    {
        match self {
            TocEntry::Folder { .. } => TocEntryKind::Folder,
            TocEntry::Page { .. } => TocEntryKind::Page,
            TocEntry::Suggestion { .. } => TocEntryKind::Suggestion,
        }
    }

    pub fn visibility(&self) -> (v: Status)
        ensures
            v == spec_visibility(*self),
    {
        match self {
            TocEntry::Folder { visibility, .. } => *visibility,
            TocEntry::Page { visibility, .. } => *visibility,
            TocEntry::Suggestion { visibility, .. } => *visibility,
        }
    }

    /// The entry's title, if it has one.
    pub fn title(&self) -> (t: Option<&str>)
        ensures
            match *self {
                TocEntry::Folder { title, .. } => t is Some && t.unwrap()@ == title@,
                TocEntry::Page { title, .. } => t is Some && t.unwrap()@ == title@,
                TocEntry::Suggestion { title, .. } => match title {
                    Some(s) => t is Some && t.unwrap()@ == s@,
                    None => t is None,
                },
            },
    {
        match self {
            TocEntry::Folder { title, .. } => Some(title.as_str()),
            TocEntry::Page { title, .. } => Some(title.as_str()),
            TocEntry::Suggestion { title, .. } => match title {
                Some(s) => Some(s.as_str()),
                None => None,
            },
        }
    }

    /// A copy of the entry.
    pub fn duplicate(&self) -> (e: TocEntry)
        ensures
            e == *self,
    {
        match self {
            TocEntry::Folder { title, visibility } => TocEntry::Folder {
                title: title.clone(),
                visibility: *visibility,
            },
            TocEntry::Page { title, page_id, page_kind, visibility } => TocEntry::Page {
                title: title.clone(),
                page_id: *page_id,
                page_kind: *page_kind,
                visibility: *visibility,
            },
            TocEntry::Suggestion { conversation_id, title, visibility } => TocEntry::Suggestion {
                conversation_id: *conversation_id,
                title: clone_opt_string(title),
                visibility: *visibility,
            },
        }
    }
}

pub open spec fn spec_visibility(e: TocEntry) -> Status {
    match e {
        TocEntry::Folder { visibility, .. } => visibility,
        TocEntry::Page { visibility, .. } => visibility,
        TocEntry::Suggestion { visibility, .. } => visibility,
    }
}

/// The view of an optional string.
pub open spec fn opt_str(o: Option<String>) -> Option<Seq<char>> {
    match o {
        Some(s) => Some(s@),
        None => None,
    }
}

pub fn clone_opt_string(o: &Option<String>) -> (r: Option<String>)
    ensures
        r == *o,
{
    match o {
        Some(s) => Some(s.clone()),
        None => None,
    }
}

/// One persisted `toc_entries` row. A folder row has a `folder_title` and
/// no `page_id`; a page row has a `page_id`. `parent_id` is the row id of
/// the parent row, `position` the index among kept siblings.
#[derive(Debug, PartialEq, Eq)]
pub struct TocRow {
    pub id: String,
    pub page_id: Option<PageId>,
    pub folder_title: Option<String>,
    pub visibility: Status,
    pub parent_id: Option<String>,
    pub position: i32,
}

impl Clone for TocRow {
    fn clone(&self) -> (r: TocRow)
        ensures
            r == *self,
    {
        TocRow {
            id: self.id.clone(),
            page_id: self.page_id,
            folder_title: clone_opt_string(&self.folder_title),
            visibility: self.visibility,
            parent_id: clone_opt_string(&self.parent_id),
            position: self.position,
        }
    }
}

// ---------------------------------------------------------------------------
// A set of strings (row ids)
// ---------------------------------------------------------------------------

/// A set of strings, held as a vector without repetition (vstd's hash
/// tables are specified only for primitive keys, not for `String`).
pub struct StrSet {
    items: Vec<String>,
}

impl View for StrSet {
    type V = Set<Seq<char>>;

    closed spec fn view(&self) -> Set<Seq<char>> {
        Set::new(|x: Seq<char>| exists|i: int| 0 <= i < self.items@.len() && #[trigger] self.items@[i]@ == x)
    }
}

impl StrSet {
    pub fn new() -> (s: StrSet)
        ensures
            s@ == Set::<Seq<char>>::empty(),
    {
        let s = StrSet { items: Vec::new() };
        assert(s@ =~= Set::<Seq<char>>::empty());
        s
    }

    pub fn contains(&self, x: &String) -> (b: bool)
        ensures
            b == self@.contains(x@),
    {
        let mut i: usize = 0;
        while i < self.items.len()
            invariant
                0 <= i <= self.items@.len(),
                forall|j: int| 0 <= j < i ==> self.items@[j]@ != x@,
            decreases self.items@.len() - i,
        {
            if self.items[i] == *x {
                assert(self@.contains(x@)) by {
                    assert(self.items@[i as int]@ == x@);
                }
                return true;
            }
            i = i + 1;
        }
        assert(!self@.contains(x@)) by {
            if self@.contains(x@) {
                let j = choose|j: int| 0 <= j < self.items@.len() && #[trigger] self.items@[j]@ == x@;
                assert(self.items@[j]@ != x@);
            }
        }
        false
    }

    pub fn insert(&mut self, x: String)
        ensures
            final(self)@ == old(self)@.insert(x@),
    {
        let ghost xv = x@;
        self.items.push(x);
        assert(self@ =~= old(self)@.insert(xv)) by {
            assert forall|y: Seq<char>| self@.contains(y) implies old(self)@.insert(xv).contains(y) by {
                let j = choose|j: int| 0 <= j < self.items@.len() && #[trigger] self.items@[j]@ == y;
                if j < old(self).items@.len() {
                    assert(old(self).items@[j]@ == y);
                }
            }
            assert forall|y: Seq<char>| old(self)@.insert(xv).contains(y) implies self@.contains(y) by {
                if y == xv {
                    assert(self.items@[self.items@.len() - 1]@ == y);
                } else {
                    let j = choose|j: int| 0 <= j < old(self).items@.len() && #[trigger] old(self).items@[j]@ == y;
                    assert(self.items@[j]@ == y);
                }
            }
        }
    }
}

// ---------------------------------------------------------------------------
// Topological sort of rows
// ---------------------------------------------------------------------------

/// The parent id of a row, taken by its view: the row's sibling group.
pub open spec fn parent_view(e: TocRow) -> Option<Seq<char>> {
    match e.parent_id {
        Some(p) => Some(p@),
        None => None,
    }
}

/// The rows of one sibling group: those whose parent id is `q`.
pub open spec fn in_group(q: Option<Seq<char>>) -> spec_fn(TocRow) -> bool {
    |e: TocRow| parent_view(e) == q
}

/// A row can be placed once its parent row has been placed (or it has
/// none), unless an earlier sibling is still waiting in this pass: siblings
/// never overtake each other.
pub open spec fn can_place(e: TocRow, placed: Set<Seq<char>>, blocked: Set<Seq<char>>) -> bool {
    match e.parent_id {
        None => true,
        Some(p) => placed.contains(p@) && !blocked.contains(p@),
    }
}

/// The sibling groups blocked once `e` waits: its own.
pub open spec fn block(e: TocRow, blocked: Set<Seq<char>>) -> Set<Seq<char>> {
    match e.parent_id {
        Some(p) => blocked.insert(p@),
        None => blocked,
    }
}

/// One pass over the rows still waiting, in order: a row that can be
/// placed is placed at once (so a child later in the same pass follows
/// it), the others wait for the next pass and block their sibling group
/// for the rest of this one. Returns the rows placed, the rows left
/// waiting, and the row ids placed so far.
#[verifier::opaque]
pub open spec fn sort_pass(rem: Seq<TocRow>, placed: Set<Seq<char>>, blocked: Set<Seq<char>>) -> (Seq<TocRow>, Seq<TocRow>, Set<Seq<char>>)
    decreases rem.len(),
{
    if rem.len() == 0 {
        (Seq::empty(), Seq::empty(), placed)
    } else {
        let e = rem[0];
        if can_place(e, placed, blocked) {
            let r = sort_pass(rem.drop_first(), placed.insert(e.id@), blocked);
            (seq![e] + r.0, r.1, r.2)
        } else {
            let r = sort_pass(rem.drop_first(), placed, block(e, blocked));
            (r.0, seq![e] + r.1, r.2)
        }
    }
}

pub proof fn lemma_sort_pass_len(rem: Seq<TocRow>, placed: Set<Seq<char>>, blocked: Set<Seq<char>>)
    ensures
        sort_pass(rem, placed, blocked).0.len() + sort_pass(rem, placed, blocked).1.len() == rem.len(),
    decreases rem.len(),
{
    reveal(sort_pass);
    if rem.len() > 0 {
        let e = rem[0];
        if can_place(e, placed, blocked) {
            lemma_sort_pass_len(rem.drop_first(), placed.insert(e.id@), blocked);
        } else {
            lemma_sort_pass_len(rem.drop_first(), placed, block(e, blocked));
        }
    }
}

/// Passes repeated until every row is placed or a pass places nothing;
/// the rows still waiting then (their parent never appears) are dropped.
pub open spec fn spec_topological_sort(rem: Seq<TocRow>, placed: Set<Seq<char>>) -> Seq<TocRow>
    decreases rem.len(),
{
    if rem.len() == 0 {
        Seq::empty()
    } else {
        let r = sort_pass(rem, placed, Set::empty());
        if r.1.len() == rem.len() {
            Seq::empty()
        } else {
            proof {
                lemma_sort_pass_len(rem, placed, Set::empty());
            }
            r.0 + spec_topological_sort(r.1, r.2)
        }
    }
}

/// Every row with a parent follows a row with that id.
pub open spec fn well_ordered(rows: Seq<TocRow>) -> bool {
    forall|k: int| 0 <= k < rows.len() && (#[trigger] rows[k]).parent_id is Some ==>
        exists|j: int| 0 <= j < k && (#[trigger] rows[j]).id@ == rows[k].parent_id.unwrap()@
}

/// Sort rows so that every row follows its parent row; rows whose parent
/// never appears are dropped. Within each parent group the rows keep their
/// input order (the sibling order from the query): of each group, the
/// rows kept are a prefix of that group in input order. Rows that already
/// follow their parents come back unchanged.
pub fn topological_sort(entries: Vec<TocRow>) -> (sorted: Vec<TocRow>)
    ensures
        sorted@ == spec_topological_sort(entries@, Set::empty()),
        well_ordered(sorted@),
        forall|q: Option<Seq<char>>| #[trigger] sorted@.filter(in_group(q)).is_prefix_of(entries@.filter(in_group(q))),
        well_ordered(entries@) ==> sorted@ == entries@,
{
    let ghost input = entries@;
    let mut sorted: Vec<TocRow> = Vec::new();
    let mut remaining = entries;
    let mut processed = StrSet::new();
    let mut done = false;
    while !done
        invariant
            done ==> sorted@ == spec_topological_sort(input, Set::empty()),
            !done ==> sorted@ + spec_topological_sort(remaining@, processed@) == spec_topological_sort(input, Set::empty()),
        decreases remaining@.len() + (if done { 0int } else { 1int }),
    {
        if remaining.len() == 0 {
            assert(sorted@ + Seq::<TocRow>::empty() == sorted@);
            done = true;
        } else {
            let before_len = remaining.len();
            let ghost rem0 = remaining@;
            let ghost p0 = processed@;
            let ghost sorted0 = sorted@;
            let mut next_remaining: Vec<TocRow> = Vec::new();
            let mut blocked = StrSet::new();
            proof {
                lemma_sort_pass_len(rem0, p0, Set::empty());
            }
            while remaining.len() > 0
                invariant
                    sorted@.len() >= sorted0.len(),
                    sorted@.subrange(0, sorted0.len() as int) == sorted0,
                    sort_pass(rem0, p0, Set::empty()) == (
                        sorted@.subrange(sorted0.len() as int, sorted@.len() as int) + sort_pass(remaining@, processed@, blocked@).0,
                        next_remaining@ + sort_pass(remaining@, processed@, blocked@).1,
                        sort_pass(remaining@, processed@, blocked@).2,
                    ),
                decreases remaining@.len(),
            {
                proof {
                    reveal(sort_pass);
                }
                let ghost cur = remaining@;
                let ghost pc = processed@;
                let ghost bc = blocked@;
                let entry = remaining.remove(0);
                assert(cur.drop_first() == remaining@);
                let can_process = match &entry.parent_id {
                    None => true,
                    Some(pid) => processed.contains(pid) && !blocked.contains(pid),
                };
                let ghost done_part = sorted@.subrange(sorted0.len() as int, sorted@.len() as int);
                if can_process {
                    processed.insert(entry.id.clone());
                    sorted.push(entry);
                    assert(sorted@.subrange(0, sorted0.len() as int) =~= sorted0);
                    assert(sorted@.subrange(sorted0.len() as int, sorted@.len() as int) =~= done_part.push(cur[0]));
                    assert(done_part + sort_pass(cur, pc, bc).0 =~= done_part.push(cur[0]) + sort_pass(remaining@, processed@, blocked@).0);
                } else {
                    match &entry.parent_id {
                        Some(pid) => blocked.insert(pid.clone()),
                        None => {},
                    }
                    assert(blocked@ == block(cur[0], bc));
                    next_remaining.push(entry);
                    assert(next_remaining@.drop_last() + sort_pass(cur, pc, bc).1 =~= next_remaining@ + sort_pass(remaining@, processed@, blocked@).1);
                }
            }
            proof {
                reveal(sort_pass);
            }
            assert(sort_pass(remaining@, processed@, blocked@).0 =~= Seq::<TocRow>::empty());
            assert(sort_pass(remaining@, processed@, blocked@).1 =~= Seq::<TocRow>::empty());
            let ghost taken = sorted@.subrange(sorted0.len() as int, sorted@.len() as int);
            assert(sort_pass(rem0, p0, Set::empty()).0 =~= taken);
            assert(sort_pass(rem0, p0, Set::empty()).1 =~= next_remaining@);
            if next_remaining.len() == before_len {
                assert(taken.len() == 0);
                assert(sorted@ =~= sorted0);
                assert(spec_topological_sort(rem0, p0) =~= Seq::<TocRow>::empty());
                assert(sorted0 + Seq::<TocRow>::empty() =~= sorted0);
                done = true;
            } else {
                assert(sorted@ =~= sorted0 + taken);
                assert(sorted0 + spec_topological_sort(rem0, p0) =~= sorted@ + spec_topological_sort(next_remaining@, processed@));
                remaining = next_remaining;
            }
        }
    }
    proof {
        lemma_topological_sort_order(input, sorted@);
    }
    sorted
}

// ---------------------------------------------------------------------------
// Entry views
// ---------------------------------------------------------------------------

/// The mathematical value of a ToC entry: its strings taken by their views.
pub enum TocEntryView {
    Folder { title: Seq<char>, visibility: Status },
    Page { title: Seq<char>, page_id: PageId, page_kind: TocPageKind, visibility: Status },
    Suggestion { conversation_id: ConversationId, title: Option<Seq<char>>, visibility: Status },
}

impl View for TocEntry {
    type V = TocEntryView;

    open spec fn view(&self) -> TocEntryView {
        match *self {
            TocEntry::Folder { title, visibility } => TocEntryView::Folder { title: title@, visibility },
            TocEntry::Page { title, page_id, page_kind, visibility } => TocEntryView::Page {
                title: title@,
                page_id,
                page_kind,
                visibility,
            },
            TocEntry::Suggestion { conversation_id, title, visibility } => TocEntryView::Suggestion {
                conversation_id,
                title: opt_str(title),
                visibility,
            },
        }
    }
}

// ---------------------------------------------------------------------------
// Tree ids and the ToC document
// ---------------------------------------------------------------------------

/// A node id in the ToC tree: the document's peer and the operation counter
/// that created the node.
#[derive(Debug, Clone, Copy, PartialEq, Eq, Hash, Structural)]
pub struct TreeId {
    pub peer: u64,
    pub counter: i32,
}

/// One node of the ToC tree: its id, its parent (`None` at the root) and
/// its entry. Children of a node are the nodes naming it as parent, in
/// creation order.
#[derive(Debug)]
pub struct TocNode {
    pub tree_id: TreeId,
    pub parent: Option<TreeId>,
    pub entry: TocEntry,
}

/// A ToC mutation that named a node the tree does not hold.
#[derive(Debug, Clone, Copy, PartialEq, Eq, Structural)]
pub enum DocError {
    NodeNotFound,
}

/// The table-of-contents tree. Nodes are held in creation order; a node's
/// parent always precedes it, node ids are distinct, and every id carries
/// the document's peer and a counter below the next one to be minted.
pub struct TocDoc {
    peer: u64,
    next_counter: i32,
    nodes: Vec<TocNode>,
}

/// Whether a node sequence is a well-formed tree for a peer and counter.
pub open spec fn nodes_wf(nodes: Seq<TocNode>, peer: u64, next_counter: i32) -> bool {
    &&& 0 <= next_counter
    &&& forall|i: int| 0 <= i < nodes.len() ==> (#[trigger] nodes[i]).tree_id.peer == peer && 0 <= nodes[i].tree_id.counter < next_counter
    &&& forall|i: int, j: int| 0 <= i < j < nodes.len() ==> (#[trigger] nodes[i]).tree_id != (#[trigger] nodes[j]).tree_id
    &&& forall|j: int| 0 <= j < nodes.len() && (#[trigger] nodes[j]).parent is Some ==>
            exists|i: int| 0 <= i < j && (#[trigger] nodes[i]).tree_id == nodes[j].parent.unwrap()
}

/// The position of a node id, if the tree holds it.
pub open spec fn index_of(nodes: Seq<TocNode>, t: TreeId) -> Option<int> {
    if exists|i: int| 0 <= i < nodes.len() && (#[trigger] nodes[i]).tree_id == t {
        Some(choose|i: int| 0 <= i < nodes.len() && (#[trigger] nodes[i]).tree_id == t)
    } else {
        None
    }
}

pub open spec fn holds(nodes: Seq<TocNode>, t: TreeId) -> bool {
    exists|i: int| 0 <= i < nodes.len() && (#[trigger] nodes[i]).tree_id == t
}

/// The first node holding a page entry for `page_id`, scanning from `i`.
pub open spec fn first_page_node(nodes: Seq<TocNode>, page_id: PageId, i: int) -> Option<TreeId>
    decreases nodes.len() - i,
{
    if i < 0 || i >= nodes.len() {
        None
    } else if nodes[i].entry matches TocEntry::Page { page_id: p, .. } && p == page_id {
        Some(nodes[i].tree_id)
    } else {
        first_page_node(nodes, page_id, i + 1)
    }
}

/// Whether the node at position `i` lies in the subtree of `t`: it is `t`,
/// or its parent does.
pub open spec fn in_subtree(nodes: Seq<TocNode>, t: TreeId, i: int) -> bool
    decreases i,
{
    if i < 0 || i >= nodes.len() {
        false
    } else if nodes[i].tree_id == t {
        true
    } else {
        match nodes[i].parent {
            None => false,
            Some(p) => match index_of(nodes, p) {
                Some(j) => 0 <= j < i && in_subtree(nodes, t, j),
                None => false,
            },
        }
    }
}

/// The first `n` nodes without the subtree of `t`, in order.
pub open spec fn without_subtree(nodes: Seq<TocNode>, t: TreeId, n: int) -> Seq<TocNode>
    decreases n,
{
    if n <= 0 {
        Seq::empty()
    } else if in_subtree(nodes, t, n - 1) {
        without_subtree(nodes, t, n - 1)
    } else {
        without_subtree(nodes, t, n - 1).push(nodes[n - 1])
    }
}

/// Whether a list of ids holds `x`.
fn tree_id_listed(ids: &Vec<TreeId>, x: TreeId) -> (b: bool)
    ensures
        b == ids@.contains(x),
{
    let mut i: usize = 0;
    while i < ids.len()
        invariant
            0 <= i <= ids@.len(),
            forall|j: int| 0 <= j < i ==> ids@[j] != x,
        decreases ids@.len() - i,
    {
        if ids[i] == x {
            return true;
        }
        i = i + 1;
    }
    false
}

/// In a well-formed tree, the position of a node's parent is the unique
/// earlier position holding the parent's id.
proof fn lemma_parent_position(nodes: Seq<TocNode>, peer: u64, next_counter: i32, i: int) -> (k: int)
    requires
        nodes_wf(nodes, peer, next_counter),
        0 <= i < nodes.len(),
        nodes[i].parent is Some,
    ensures
        0 <= k < i,
        nodes[k].tree_id == nodes[i].parent.unwrap(),
        index_of(nodes, nodes[i].parent.unwrap()) == Some(k),
        forall|j: int| 0 <= j < nodes.len() && nodes[j].tree_id == nodes[i].parent.unwrap() ==> j == k,
{
    let p = nodes[i].parent.unwrap();
    assert(nodes[i].parent is Some);
    let k = choose|k: int| 0 <= k < i && (#[trigger] nodes[k]).tree_id == p;
    assert forall|j: int| 0 <= j < nodes.len() && nodes[j].tree_id == p implies j == k by {
        if j < k {
            assert(nodes[j].tree_id != nodes[k].tree_id);
        } else if k < j {
            assert(nodes[k].tree_id != nodes[j].tree_id);
        }
    }
    assert(nodes[k].tree_id == p);
    k
}

/// In a well-formed tree, a node other than `t` lies in the subtree of `t`
/// exactly when its parent does.
proof fn lemma_in_subtree_step(nodes: Seq<TocNode>, peer: u64, next_counter: i32, t: TreeId, i: int)
    requires
        nodes_wf(nodes, peer, next_counter),
        0 <= i < nodes.len(),
        nodes[i].tree_id != t,
    ensures
        nodes[i].parent is None ==> !in_subtree(nodes, t, i),
        nodes[i].parent is Some ==> (in_subtree(nodes, t, i) <==> exists|j: int| 0 <= j < i && nodes[j].tree_id == nodes[i].parent.unwrap() && in_subtree(nodes, t, j)),
{
    if nodes[i].parent is Some {
        let k = lemma_parent_position(nodes, peer, next_counter, i);
        assert(in_subtree(nodes, t, i) == in_subtree(nodes, t, k));
        if exists|j: int| 0 <= j < i && nodes[j].tree_id == nodes[i].parent.unwrap() && in_subtree(nodes, t, j) {
            let j = choose|j: int| 0 <= j < i && nodes[j].tree_id == nodes[i].parent.unwrap() && in_subtree(nodes, t, j);
            assert(j == k);
        }
    }
}

/// Deleting the subtree of `t` from the first `n` nodes of a well-formed
/// tree leaves a well-formed tree whose nodes are exactly those first `n`
/// nodes outside the subtree.
#[verifier::rlimit(40)]
proof fn lemma_without_subtree(nodes: Seq<TocNode>, peer: u64, next_counter: i32, t: TreeId, n: int)
    requires
        nodes_wf(nodes, peer, next_counter),
        0 <= n <= nodes.len(),
    ensures
        nodes_wf(without_subtree(nodes, t, n), peer, next_counter),
        forall|m: int| #![trigger without_subtree(nodes, t, n)[m]] 0 <= m < without_subtree(nodes, t, n).len()
            ==> exists|j: int| #![trigger nodes[j]] 0 <= j < n && without_subtree(nodes, t, n)[m] == nodes[j],
        forall|j: int| #![trigger nodes[j]] 0 <= j < n && !in_subtree(nodes, t, j)
            ==> exists|m: int| #![trigger without_subtree(nodes, t, n)[m]] 0 <= m < without_subtree(nodes, t, n).len() && without_subtree(nodes, t, n)[m] == nodes[j],
    decreases n,
{
    if n > 0 {
        lemma_without_subtree(nodes, peer, next_counter, t, n - 1);
        let prev = without_subtree(nodes, t, n - 1);
        let kept = without_subtree(nodes, t, n);
        if in_subtree(nodes, t, n - 1) {
            assert(kept == prev);
            assert forall|j: int| #![trigger nodes[j]] 0 <= j < n && !in_subtree(nodes, t, j)
                implies exists|m: int| #![trigger kept[m]] 0 <= m < kept.len() && kept[m] == nodes[j] by {
                assert(j < n - 1);
            }
            assert forall|m: int| #![trigger kept[m]] 0 <= m < kept.len()
                implies exists|j: int| #![trigger nodes[j]] 0 <= j < n && kept[m] == nodes[j] by {
                let j = choose|j: int| #![trigger nodes[j]] 0 <= j < n - 1 && prev[m] == nodes[j];
            }
        } else {
            let x = nodes[n - 1];
            assert(kept == prev.push(x));
            // Positions of kept nodes.
            assert forall|m: int| #![trigger kept[m]] 0 <= m < kept.len()
                implies exists|j: int| #![trigger nodes[j]] 0 <= j < n && kept[m] == nodes[j] by {
                if m < prev.len() {
                    assert(kept[m] == prev[m]);
                    let j = choose|j: int| #![trigger nodes[j]] 0 <= j < n - 1 && prev[m] == nodes[j];
                    assert(kept[m] == nodes[j]);
                } else {
                    assert(kept[m] == nodes[n - 1]);
                }
            }
            assert forall|j: int| #![trigger nodes[j]] 0 <= j < n && !in_subtree(nodes, t, j)
                implies exists|m: int| #![trigger kept[m]] 0 <= m < kept.len() && kept[m] == nodes[j] by {
                if j < n - 1 {
                    let m = choose|m: int| #![trigger prev[m]] 0 <= m < prev.len() && prev[m] == nodes[j];
                    assert(kept[m] == prev[m]);
                } else {
                    assert(kept[prev.len() as int] == nodes[j]);
                }
            }
            // Well-formedness of the extended sequence.
            assert forall|i: int| 0 <= i < kept.len() implies (#[trigger] kept[i]).tree_id.peer == peer && 0 <= kept[i].tree_id.counter < next_counter by {
                let j = choose|j: int| #![trigger nodes[j]] 0 <= j < n && kept[i] == nodes[j];
            }
            assert forall|a: int, b: int| 0 <= a < b < kept.len() implies (#[trigger] kept[a]).tree_id != (#[trigger] kept[b]).tree_id by {
                if b < prev.len() {
                    assert(kept[a] == prev[a] && kept[b] == prev[b]);
                } else {
                    assert(kept[a] == prev[a]);
                    let ja = choose|ja: int| #![trigger nodes[ja]] 0 <= ja < n - 1 && prev[a] == nodes[ja];
                    assert(nodes[ja].tree_id != nodes[n - 1].tree_id);
                }
            }
            assert forall|b: int| 0 <= b < kept.len() && (#[trigger] kept[b]).parent is Some implies
                exists|a: int| 0 <= a < b && (#[trigger] kept[a]).tree_id == kept[b].parent.unwrap() by {
                if b < prev.len() {
                    assert(kept[b] == prev[b]);
                    let a = choose|a: int| 0 <= a < b && (#[trigger] prev[a]).tree_id == prev[b].parent.unwrap();
                    assert(kept[a] == prev[a]);
                } else {
                    assert(kept[b] == x);
                    let k = lemma_parent_position(nodes, peer, next_counter, n - 1);
                    if x.tree_id != t {
                        lemma_in_subtree_step(nodes, peer, next_counter, t, n - 1);
                    }
                    assert(!in_subtree(nodes, t, k));
                    let a = choose|a: int| #![trigger prev[a]] 0 <= a < prev.len() && prev[a] == nodes[k];
                    assert(kept[a] == prev[a]);
                }
            }
        }
    }
}

/// Removing a node takes its whole subtree and nothing else: afterwards no
/// node of the subtree is held, and every node outside it still is.
pub proof fn law_remove_takes_exactly_the_subtree(nodes: Seq<TocNode>, peer: u64, next_counter: i32, t: TreeId)
    requires
        nodes_wf(nodes, peer, next_counter),
    ensures
        forall|j: int| 0 <= j < nodes.len() ==>
            (holds(without_subtree(nodes, t, nodes.len() as int), #[trigger] nodes[j].tree_id) <==> !in_subtree(nodes, t, j)),
{
    lemma_without_subtree(nodes, peer, next_counter, t, nodes.len() as int);
    let kept = without_subtree(nodes, t, nodes.len() as int);
    assert forall|j: int| 0 <= j < nodes.len() implies
        (holds(kept, #[trigger] nodes[j].tree_id) <==> !in_subtree(nodes, t, j)) by {
        if !in_subtree(nodes, t, j) {
            let m = choose|m: int| #![trigger kept[m]] 0 <= m < kept.len() && kept[m] == nodes[j];
            assert(kept[m].tree_id == nodes[j].tree_id);
        }
        if holds(kept, nodes[j].tree_id) {
            let m = choose|m: int| 0 <= m < kept.len() && (#[trigger] kept[m]).tree_id == nodes[j].tree_id;
            let j2 = choose|j2: int| #![trigger nodes[j2]] 0 <= j2 < nodes.len() && kept[m] == nodes[j2];
            if j2 != j {
                if j2 < j {
                    assert(nodes[j2].tree_id != nodes[j].tree_id);
                } else {
                    assert(nodes[j].tree_id != nodes[j2].tree_id);
                }
            }
            lemma_kept_not_in_subtree(nodes, t, nodes.len() as int, m);
        }
    }
}

/// A node kept by `without_subtree` lies outside the subtree.
proof fn lemma_kept_not_in_subtree(nodes: Seq<TocNode>, t: TreeId, n: int, m: int)
    requires
        0 <= n <= nodes.len(),
        0 <= m < without_subtree(nodes, t, n).len(),
    ensures
        exists|j: int| 0 <= j < n && !in_subtree(nodes, t, j) && without_subtree(nodes, t, n)[m] == #[trigger] nodes[j],
    decreases n,
{
    let prev = without_subtree(nodes, t, n - 1);
    if in_subtree(nodes, t, n - 1) {
        lemma_kept_not_in_subtree(nodes, t, n - 1, m);
    } else if m < prev.len() {
        lemma_kept_not_in_subtree(nodes, t, n - 1, m);
        assert(without_subtree(nodes, t, n)[m] == prev[m]);
    } else {
        assert(without_subtree(nodes, t, n)[m] == nodes[n - 1]);
    }
}

impl TocDoc {
    /// The document's structural invariant.
    pub closed spec fn wf(self) -> bool {
        nodes_wf(self.nodes@, self.peer, self.next_counter)
    }

    /// The nodes in creation order.
    pub closed spec fn spec_nodes(self) -> Seq<TocNode> {
        self.nodes@
    }

    pub closed spec fn spec_peer(self) -> u64 {
        self.peer
    }

    pub closed spec fn spec_next_counter(self) -> i32 {
        self.next_counter
    }

    /// An empty tree for the given peer.
    pub fn with_peer(peer: u64) -> (d: TocDoc)
        ensures
            d.wf(),
            d.spec_nodes().len() == 0,
            d.spec_peer() == peer,
            d.spec_next_counter() == 0,
    {
        TocDoc { peer, next_counter: 0, nodes: Vec::new() }
    }

    /// An empty tree with a fresh random peer.
    pub fn new() -> (d: TocDoc)
        ensures
            d.wf(),
            d.spec_nodes().len() == 0,
            d.spec_next_counter() == 0,
    {
        let peer = crate::ids::fresh_ulid() as u64;
        TocDoc::with_peer(peer)
    }

    pub fn len(&self) -> (n: usize)
        ensures
            n == self.spec_nodes().len(),
    {
        self.nodes.len()
    }

    /// The position of a node, if present.
    fn find_index(&self, t: TreeId) -> (r: Option<usize>)
        ensures
            match r {
                Some(i) => i < self.spec_nodes().len() && self.spec_nodes()[i as int].tree_id == t,
                None => !holds(self.spec_nodes(), t),
            },
    {
        let mut i: usize = 0;
        while i < self.nodes.len()
            invariant
                0 <= i <= self.nodes@.len(),
                forall|j: int| 0 <= j < i ==> (#[trigger] self.nodes@[j]).tree_id != t,
            decreases self.nodes@.len() - i,
        {
            if self.nodes[i].tree_id == t {
                return Some(i);
            }
            i = i + 1;
        }
        None
    }

    /// Whether the tree holds a node.
    pub fn contains(&self, t: TreeId) -> (b: bool)
        ensures
            b == holds(self.spec_nodes(), t),
    {
        self.find_index(t).is_some()
    }

    /// Append a node holding `entry` as the last child of `parent` (the root
    /// when `None`), minting its id from the document's counter. Fails,
    /// changing nothing, when `parent` names no node.
    pub fn add_entry(&mut self, parent: Option<TreeId>, entry: TocEntry) -> (r: Result<TreeId, DocError>)
        requires
            old(self).wf(),
            old(self).spec_next_counter() < i32::MAX,
        ensures
            final(self).wf(),
            match parent {
                Some(p) if !holds(old(self).spec_nodes(), p) => {
                    &&& r == Err::<TreeId, DocError>(DocError::NodeNotFound)
                    &&& final(self).spec_nodes() == old(self).spec_nodes()
                    &&& final(self).spec_next_counter() == old(self).spec_next_counter()
                },
                _ => {
                    &&& r == Ok::<TreeId, DocError>(TreeId { peer: old(self).spec_peer(), counter: old(self).spec_next_counter() })
                    &&& final(self).spec_nodes().len() == old(self).spec_nodes().len() + 1
                    &&& final(self).spec_nodes().drop_last() == old(self).spec_nodes()
                    &&& final(self).spec_nodes().last().tree_id == r.unwrap()
                    &&& final(self).spec_nodes().last().parent == parent
                    &&& final(self).spec_nodes().last().entry == entry
                    &&& final(self).spec_next_counter() == old(self).spec_next_counter() + 1
                },
            },
            final(self).spec_peer() == old(self).spec_peer(),
    {
        if let Some(p) = parent {
            if !self.contains(p) {
                return Err(DocError::NodeNotFound);
            }
        }
        let id = TreeId { peer: self.peer, counter: self.next_counter };
        let ghost old_nodes = self.nodes@;
        self.next_counter = self.next_counter + 1;
        self.nodes.push(TocNode { tree_id: id, parent, entry });
        proof {
            let ns = self.nodes@;
            assert(ns.drop_last() =~= old_nodes);
            assert forall|j: int| 0 <= j < ns.len() && (#[trigger] ns[j]).parent is Some implies
                exists|i: int| 0 <= i < j && (#[trigger] ns[i]).tree_id == ns[j].parent.unwrap() by {
                if j == ns.len() - 1 {
                    let i = choose|i: int| 0 <= i < old_nodes.len() && (#[trigger] old_nodes[i]).tree_id == parent.unwrap();
                    assert(ns[i] == old_nodes[i]);
                } else {
                    assert(ns[j] == old_nodes[j]);
                    let i = choose|i: int| 0 <= i < j && (#[trigger] old_nodes[i]).tree_id == old_nodes[j].parent.unwrap();
                    assert(ns[i] == old_nodes[i]);
                }
            }
        }
        Ok(id)
    }

    /// The first node holding the page entry of `page_id`.
    pub fn find_page_node(&self, page_id: &PageId) -> (r: Option<TreeId>)
        ensures
            r == first_page_node(self.spec_nodes(), *page_id, 0),
    {
        let mut i: usize = 0;
        while i < self.nodes.len()
            invariant
                0 <= i <= self.nodes@.len(),
                first_page_node(self.nodes@, *page_id, 0) == first_page_node(self.nodes@, *page_id, i as int),
            decreases self.nodes@.len() - i,
        {
            if let TocEntry::Page { page_id: p, .. } = &self.nodes[i].entry {
                if *p == *page_id {
                    return Some(self.nodes[i].tree_id);
                }
            }
            i = i + 1;
        }
        None
    }

    /// A copy of a node's entry.
    pub fn read_entry(&self, t: TreeId) -> (r: Option<TocEntry>)
        requires
            self.wf(),
        ensures
            match r {
                Some(e) => holds(self.spec_nodes(), t) && e == self.spec_nodes()[index_of(self.spec_nodes(), t).unwrap()].entry,
                None => !holds(self.spec_nodes(), t),
            },
    {
        match self.find_index(t) {
            Some(i) => {
                proof {
                    let k = index_of(self.nodes@, t).unwrap();
                    if k != i {
                        if k < i {
                            assert(self.nodes@[k].tree_id != self.nodes@[i as int].tree_id);
                        } else {
                            assert(self.nodes@[i as int].tree_id != self.nodes@[k].tree_id);
                        }
                    }
                }
                Some(self.nodes[i].entry.duplicate())
            },
            None => None,
        }
    }

    /// Replace a node's entry in place.
    pub fn update_entry(&mut self, t: TreeId, entry: TocEntry) -> (r: Result<(), DocError>)
        requires
            old(self).wf(),
        ensures
            final(self).wf(),
            match r {
                Ok(_) => holds(old(self).spec_nodes(), t)
                    && final(self).spec_nodes() == old(self).spec_nodes().update(
                        index_of(old(self).spec_nodes(), t).unwrap(),
                        TocNode {
                            tree_id: t,
                            parent: old(self).spec_nodes()[index_of(old(self).spec_nodes(), t).unwrap()].parent,
                            entry,
                        },
                    ),
                Err(e) => e == DocError::NodeNotFound && !holds(old(self).spec_nodes(), t)
                    && final(self).spec_nodes() == old(self).spec_nodes(),
            },
            final(self).spec_peer() == old(self).spec_peer(),
            final(self).spec_next_counter() == old(self).spec_next_counter(),
    {
        match self.find_index(t) {
            None => Err(DocError::NodeNotFound),
            Some(i) => {
                let ghost old_nodes = self.nodes@;
                proof {
                    let k = index_of(old_nodes, t).unwrap();
                    if k != i {
                        if k < i {
                            assert(old_nodes[k].tree_id != old_nodes[i as int].tree_id);
                        } else {
                            assert(old_nodes[i as int].tree_id != old_nodes[k].tree_id);
                        }
                    }
                }
                let parent = self.nodes[i].parent;
                self.nodes.set(i, TocNode { tree_id: t, parent, entry });
                proof {
                    let ns = self.nodes@;
                    assert forall|j: int| 0 <= j < ns.len() && (#[trigger] ns[j]).parent is Some implies
                        exists|k: int| 0 <= k < j && (#[trigger] ns[k]).tree_id == ns[j].parent.unwrap() by {
                        let k = choose|k: int| 0 <= k < j && (#[trigger] old_nodes[k]).tree_id == old_nodes[j].parent.unwrap();
                        assert(ns[k].tree_id == old_nodes[k].tree_id);
                    }
                    assert(nodes_wf(ns, self.peer, self.next_counter));
                }
                Ok(())
            },
        }
    }

    /// Delete a node together with its whole subtree; the other nodes keep
    /// their order. Fails, changing nothing, when the tree does not hold
    /// the node.
    pub fn remove_entry(&mut self, t: TreeId) -> (r: Result<(), DocError>)
        requires
            old(self).wf(),
        ensures
            final(self).wf(),
            final(self).spec_peer() == old(self).spec_peer(),
            final(self).spec_next_counter() == old(self).spec_next_counter(),
            holds(old(self).spec_nodes(), t) ==> r is Ok
                && final(self).spec_nodes() == without_subtree(old(self).spec_nodes(), t, old(self).spec_nodes().len() as int),
            !holds(old(self).spec_nodes(), t) ==> r == Err::<(), DocError>(DocError::NodeNotFound)
                && final(self).spec_nodes() == old(self).spec_nodes(),
    {
        if !self.contains(t) {
            return Err(DocError::NodeNotFound);
        }
        let mut old_nodes: Vec<TocNode> = Vec::new();
        std::mem::swap(&mut old_nodes, &mut self.nodes);
        let ghost all = old_nodes@;
        let n = old_nodes.len();
        let mut rest = old_nodes;
        let mut kept: Vec<TocNode> = Vec::new();
        let mut gone: Vec<TreeId> = Vec::new();
        let mut i: usize = 0;
        while i < n
            invariant
                n == all.len(),
                0 <= i <= n,
                nodes_wf(all, self.peer, self.next_counter),
                rest@ == all.subrange(i as int, n as int),
                kept@ == without_subtree(all, t, i as int),
                forall|x: TreeId| #[trigger] gone@.contains(x) <==> exists|j: int| 0 <= j < i && all[j].tree_id == x && in_subtree(all, t, j),
            decreases n - i,
        {
            let node = rest.remove(0);
            proof {
                assert(node == all[i as int]);
            }
            let removed = if node.tree_id == t {
                true
            } else {
                match node.parent {
                    None => false,
                    Some(p) => tree_id_listed(&gone, p),
                }
            };
            proof {
                if node.tree_id != t {
                    lemma_in_subtree_step(all, self.peer, self.next_counter, t, i as int);
                }
                assert(removed == in_subtree(all, t, i as int));
            }
            let ghost gone0 = gone@;
            let ghost id = node.tree_id;
            if removed {
                gone.push(node.tree_id);
            } else {
                kept.push(node);
            }
            proof {
                assert forall|x: TreeId| #[trigger] gone@.contains(x) <==> exists|j: int| 0 <= j < i + 1 && all[j].tree_id == x && in_subtree(all, t, j) by {
                    if removed {
                        assert(gone@ == gone0.push(id));
                        if gone@.contains(x) && x != id {
                            let m = choose|m: int| 0 <= m < gone@.len() && gone@[m] == x;
                            assert(gone0[m] == x);
                            assert(gone0.contains(x));
                        }
                        if gone0.contains(x) {
                            let m = choose|m: int| 0 <= m < gone0.len() && gone0[m] == x;
                            assert(gone@[m] == x);
                        }
                        if x == id {
                            assert(gone@[gone0.len() as int] == x);
                        }
                    }
                    if exists|j: int| 0 <= j < i + 1 && all[j].tree_id == x && in_subtree(all, t, j) {
                        let j = choose|j: int| 0 <= j < i + 1 && all[j].tree_id == x && in_subtree(all, t, j);
                        if j < i {
                            assert(exists|j2: int| 0 <= j2 < i && all[j2].tree_id == x && in_subtree(all, t, j2));
                        }
                    }
                }
            }
            i = i + 1;
        }
        proof {
            lemma_without_subtree(all, self.peer, self.next_counter, t, n as int);
        }
        self.nodes = kept;
        Ok(())
    }

    /// The ids of the children of `parent` (the roots when `None`), in order.
    pub fn children(&self, parent: Option<TreeId>) -> (r: Vec<TreeId>)
        ensures
            r@ == children_of(self.spec_nodes(), parent, 0),
    {
        let mut out: Vec<TreeId> = Vec::new();
        let mut i: usize = self.nodes.len();
        while i > 0
            invariant
                0 <= i <= self.nodes@.len(),
                out@ == children_of(self.nodes@, parent, i as int).reverse(),
            decreases i,
        {
            i = i - 1;
            if self.nodes[i].parent == parent {
                out.push(self.nodes[i].tree_id);
            }
            proof {
                let s = children_of(self.nodes@, parent, i as int);
                assert(s.reverse() =~= out@);
            }
        }
        let mut res: Vec<TreeId> = Vec::new();
        let mut k: usize = out.len();
        while k > 0
            invariant
                0 <= k <= out@.len(),
                res@ == out@.subrange(k as int, out@.len() as int).reverse(),
            decreases k,
        {
            k = k - 1;
            res.push(out[k]);
            assert(res@ =~= out@.subrange(k as int, out@.len() as int).reverse());
        }
        assert(out@.subrange(0, out@.len() as int) =~= out@);
        assert(res@ =~= children_of(self.nodes@, parent, 0));
        res
    }
}

/// The ids of the nodes naming `parent` as parent, from position `i` on.
pub open spec fn children_of(nodes: Seq<TocNode>, parent: Option<TreeId>, i: int) -> Seq<TreeId>
    decreases nodes.len() - i,
{
    if i < 0 || i >= nodes.len() {
        Seq::empty()
    } else if nodes[i].parent == parent {
        seq![nodes[i].tree_id] + children_of(nodes, parent, i + 1)
    } else {
        children_of(nodes, parent, i + 1)
    }
}


// ---------------------------------------------------------------------------
// Page id sets and the tree-id -> row-id map
// ---------------------------------------------------------------------------

/// A set of page ids, held by their 128-bit values.
pub struct PageIdSet {
    ids: std::collections::HashSet<u128>,
}

impl View for PageIdSet {
    type V = Set<PageId>;

    closed spec fn view(&self) -> Set<PageId> {
        Set::new(|p: PageId| self.ids@.contains(p.0))
    }
}

impl PageIdSet {
    pub fn new() -> (s: PageIdSet)
        ensures
            s@ == Set::<PageId>::empty(),
    {
        broadcast use vstd::std_specs::hash::group_hash_axioms;
        let s = PageIdSet { ids: std::collections::HashSet::new() };
        assert(s@ =~= Set::<PageId>::empty());
        s
    }

    pub fn contains(&self, p: &PageId) -> (b: bool)
        ensures
            b == self@.contains(*p),
    {
        broadcast use vstd::std_specs::hash::group_hash_axioms;
        self.ids.contains(&p.0)
    }

    pub fn insert(&mut self, p: PageId)
        ensures
            final(self)@ == old(self)@.insert(p),
    {
        broadcast use vstd::std_specs::hash::group_hash_axioms;
        self.ids.insert(p.0);
        assert(self@ =~= old(self)@.insert(p)) by {
            assert forall|q: PageId| #[trigger] self@.contains(q) <==> old(self)@.insert(p).contains(q) by {
                if q.0 == p.0 {
                    assert(q == p);
                }
            }
        }
    }
}

/// The stable row id of each ToC node: existing nodes keep their row id
/// from the last restore or snapshot, new nodes get a fresh one. Held as a
/// vector of entries with distinct keys (vstd's hash tables are specified
/// only for primitive keys, not for a struct such as `TreeId`).
pub struct RowIdMap {
    entries: Vec<(TreeId, String)>,
}

pub open spec fn keys_distinct(entries: Seq<(TreeId, String)>) -> bool {
    forall|i: int, j: int| 0 <= i < j < entries.len() ==> (#[trigger] entries[i]).0 != (#[trigger] entries[j]).0
}

impl View for RowIdMap {
    type V = Map<TreeId, Seq<char>>;

    closed spec fn view(&self) -> Map<TreeId, Seq<char>> {
        Map::new(
            |t: TreeId| exists|i: int| 0 <= i < self.entries@.len() && (#[trigger] self.entries@[i]).0 == t,
            |t: TreeId| self.entries@[choose|i: int| 0 <= i < self.entries@.len() && (#[trigger] self.entries@[i]).0 == t].1@,
        )
    }
}

impl RowIdMap {
    /// The map's invariant: no tree id occurs twice.
    pub closed spec fn wf(&self) -> bool {
        keys_distinct(self.entries@)
    }

    pub fn new() -> (m: RowIdMap)
        ensures
            m.wf(),
            m@ == Map::<TreeId, Seq<char>>::empty(),
    {
        let m = RowIdMap { entries: Vec::new() };
        assert(m@ =~= Map::<TreeId, Seq<char>>::empty());
        m
    }

    pub fn len(&self) -> (n: usize)
        requires
            self.wf(),
        ensures
            n == self@.dom().len(),
    {
        proof {
            self.lemma_dom_len();
        }
        self.entries.len()
    }

    proof fn lemma_dom_len(&self)
        requires
            self.wf(),
        ensures
            self@.dom().len() == self.entries@.len(),
            self@.dom().finite(),
    {
        let es = self.entries@;
        let d = Set::new(|t: TreeId| exists|i: int| 0 <= i < es.len() && (#[trigger] es[i]).0 == t);
        lemma_keys_set_len(es);
        assert(self@.dom() =~= d);
    }

    /// The row id of a node, if it has one.
    pub fn get(&self, t: TreeId) -> (r: Option<&String>)
        requires
            self.wf(),
        ensures
            match r {
                Some(s) => self@.contains_key(t) && s@ == self@[t],
                None => !self@.contains_key(t),
            },
    {
        match self.find(t) {
            Some(i) => Some(&self.entries[i].1),
            None => None,
        }
    }

    fn find(&self, t: TreeId) -> (r: Option<usize>)
        requires
            self.wf(),
        ensures
            match r {
                Some(i) => i < self.entries@.len() && self.entries@[i as int].0 == t
                    && self@.contains_key(t) && self@[t] == self.entries@[i as int].1@,
                None => !self@.contains_key(t),
            },
    {
        let mut i: usize = 0;
        while i < self.entries.len()
            invariant
                self.wf(),
                0 <= i <= self.entries@.len(),
                forall|j: int| 0 <= j < i ==> (#[trigger] self.entries@[j]).0 != t,
            decreases self.entries@.len() - i,
        {
            if self.entries[i].0 == t {
                proof {
                    let es = self.entries@;
                    assert(es[i as int].0 == t);
                    let k = choose|k: int| 0 <= k < es.len() && (#[trigger] es[k]).0 == t;
                    if k != i {
                        if k < i {
                            assert(es[k].0 != es[i as int].0);
                        } else {
                            assert(es[i as int].0 != es[k].0);
                        }
                    }
                }
                return Some(i);
            }
            i = i + 1;
        }
        None
    }

    /// Record the row id of a node the map does not hold yet.
    pub fn insert_new(&mut self, t: TreeId, row_id: String)
        requires
            old(self).wf(),
            !old(self)@.contains_key(t),
        ensures
            final(self).wf(),
            final(self)@ == old(self)@.insert(t, row_id@),
    {
        let ghost v = row_id@;
        let ghost old_es = self.entries@;
        self.entries.push((t, row_id));
        proof {
            let es = self.entries@;
            assert forall|i: int, j: int| 0 <= i < j < es.len() implies (#[trigger] es[i]).0 != (#[trigger] es[j]).0 by {
                if j == es.len() - 1 {
                    assert(es[i] == old_es[i]);
                    if es[i].0 == t {
                        assert(old(self)@.contains_key(t));
                    }
                } else {
                    assert(es[i] == old_es[i]);
                    assert(es[j] == old_es[j]);
                }
            }
            assert(self@ =~= old(self)@.insert(t, v)) by {
                assert forall|u: TreeId| self@.contains_key(u) implies old(self)@.insert(t, v).contains_key(u) by {
                    let i = choose|i: int| 0 <= i < es.len() && (#[trigger] es[i]).0 == u;
                    if i < old_es.len() {
                        assert(old_es[i] == es[i]);
                    }
                }
                assert forall|u: TreeId| old(self)@.insert(t, v).contains_key(u) implies self@.contains_key(u) by {
                    if u == t {
                        assert(es[es.len() - 1].0 == u);
                    } else {
                        let i = choose|i: int| 0 <= i < old_es.len() && (#[trigger] old_es[i]).0 == u;
                        assert(es[i] == old_es[i]);
                    }
                }
                assert forall|u: TreeId| self@.contains_key(u) implies self@[u] == old(self)@.insert(t, v)[u] by {
                    let i = choose|i: int| 0 <= i < es.len() && (#[trigger] es[i]).0 == u;
                    if u == t {
                        if i != es.len() - 1 {
                            assert(es[i] == old_es[i]);
                            assert(old(self)@.contains_key(t));
                        }
                    } else {
                        assert(i < old_es.len());
                        assert(old_es[i] == es[i]);
                        let k = choose|k: int| 0 <= k < old_es.len() && (#[trigger] old_es[k]).0 == u;
                        if k != i {
                            if k < i {
                                assert(old_es[k].0 != old_es[i].0);
                            } else {
                                assert(old_es[i].0 != old_es[k].0);
                            }
                        }
                    }
                }
            }
        }
    }

    /// The row id of a node, minting and recording a fresh one for a node
    /// the map does not hold yet.
    pub fn get_or_insert_fresh(&mut self, t: TreeId) -> (r: String)
        requires
            old(self).wf(),
        ensures
            final(self).wf(),
            old(self)@.contains_key(t) ==> final(self)@ == old(self)@ && r@ == old(self)@[t],
            !old(self)@.contains_key(t) ==> final(self)@ == old(self)@.insert(t, r@) && r@.len() == 26
                && crate::ids::ulid_parse(r@) is Some,
    {
        match self.find(t) {
            Some(i) => self.entries[i].1.clone(),
            None => {
                let fresh = fresh_row_id();
                self.insert_new(t, fresh.clone());
                fresh
            },
        }
    }
}

proof fn lemma_keys_set_len(es: Seq<(TreeId, String)>)
    requires
        keys_distinct(es),
    ensures
        ({
            let d = Set::new(|t: TreeId| exists|i: int| 0 <= i < es.len() && (#[trigger] es[i]).0 == t);
            d.finite() && d.len() == es.len()
        }),
    decreases es.len(),
{
    let d = Set::new(|t: TreeId| exists|i: int| 0 <= i < es.len() && (#[trigger] es[i]).0 == t);
    if es.len() == 0 {
        assert(d =~= Set::<TreeId>::empty());
    } else {
        let smaller = es.drop_last();
        let ds = Set::new(|t: TreeId| exists|i: int| 0 <= i < smaller.len() && (#[trigger] smaller[i]).0 == t);
        assert(keys_distinct(smaller)) by {
            assert forall|i: int, j: int| 0 <= i < j < smaller.len() implies (#[trigger] smaller[i]).0 != (#[trigger] smaller[j]).0 by {
                assert(smaller[i] == es[i]);
                assert(smaller[j] == es[j]);
            }
        }
        lemma_keys_set_len(smaller);
        assert(d =~= ds.insert(es.last().0)) by {
            assert forall|t: TreeId| d.contains(t) implies ds.insert(es.last().0).contains(t) by {
                let i = choose|i: int| 0 <= i < es.len() && (#[trigger] es[i]).0 == t;
                if i < es.len() - 1 {
                    assert(smaller[i] == es[i]);
                }
            }
            assert forall|t: TreeId| ds.insert(es.last().0).contains(t) implies d.contains(t) by {
                if t != es.last().0 {
                    let i = choose|i: int| 0 <= i < smaller.len() && (#[trigger] smaller[i]).0 == t;
                    assert(es[i] == smaller[i]);
                } else {
                    assert(es[es.len() - 1].0 == t);
                }
            }
        }
        assert(!ds.contains(es.last().0)) by {
            if ds.contains(es.last().0) {
                let i = choose|i: int| 0 <= i < smaller.len() && (#[trigger] smaller[i]).0 == es.last().0;
                assert(es[i] == smaller[i]);
                assert(es[i].0 != es[es.len() - 1].0);
            }
        }
    }
}


// ---------------------------------------------------------------------------
// Snapshot: tree -> rows
// ---------------------------------------------------------------------------

/// The content of one snapshot row before its row ids are resolved: the
/// node, its page id or folder title, its visibility, its parent node and
/// its position among the kept siblings.
pub struct RowShape {
    pub tree_id: TreeId,
    pub page_id: Option<PageId>,
    pub folder_title: Option<Seq<char>>,
    pub visibility: Status,
    pub parent: Option<TreeId>,
    pub position: int,
}

/// Whether a node is persisted: folders always, pages only when the page is
/// known (a dangling reference is dropped), suggestions never.
pub open spec fn kept_in_snapshot(e: TocEntry, known: Set<PageId>) -> bool {
    match e {
        TocEntry::Folder { .. } => true,
        TocEntry::Page { page_id, .. } => known.contains(page_id),
        TocEntry::Suggestion { .. } => false,
    }
}

pub open spec fn shape_of(n: TocNode, parent: Option<TreeId>, pos: int) -> RowShape {
    RowShape {
        tree_id: n.tree_id,
        page_id: match n.entry {
            TocEntry::Page { page_id, .. } => Some(page_id),
            _ => None,
        },
        folder_title: match n.entry {
            TocEntry::Folder { title, .. } => Some(title@),
            _ => None,
        },
        visibility: spec_visibility(n.entry),
        parent,
        position: pos,
    }
}

/// The rows of the kept children of `parent` found from position `i` on,
/// each followed by the rows of its own subtree (preorder), `pos` being the
/// position the next kept child takes. A skipped node takes its whole
/// subtree with it.
pub open spec fn snapshot_rows(nodes: Seq<TocNode>, parent: Option<TreeId>, i: int, pos: int, known: Set<PageId>) -> Seq<RowShape>
    decreases nodes.len() - i,
{
    if i < 0 || i >= nodes.len() {
        Seq::empty()
    } else if nodes[i].parent == parent && kept_in_snapshot(nodes[i].entry, known) {
        seq![shape_of(nodes[i], parent, pos)]
            + snapshot_rows(nodes, Some(nodes[i].tree_id), i + 1, 0, known)
            + snapshot_rows(nodes, parent, i + 1, pos + 1, known)
    } else {
        snapshot_rows(nodes, parent, i + 1, pos, known)
    }
}

/// A row carries a shape, with row ids taken from the map.
pub open spec fn row_matches(r: TocRow, s: RowShape, m: Map<TreeId, Seq<char>>) -> bool {
    &&& m.contains_key(s.tree_id)
    &&& r.id@ == m[s.tree_id]
    &&& r.page_id == s.page_id
    &&& opt_str(r.folder_title) == s.folder_title
    &&& r.visibility == s.visibility
    &&& r.position == s.position
    &&& match s.parent {
        None => r.parent_id is None,
        Some(p) => m.contains_key(p) && opt_str(r.parent_id) == Some(m[p]),
    }
}

/// `m1` keeps every entry of `m0`.
pub open spec fn map_extends(m1: Map<TreeId, Seq<char>>, m0: Map<TreeId, Seq<char>>) -> bool {
    forall|t: TreeId| #[trigger] m0.contains_key(t) ==> m1.contains_key(t) && m1[t] == m0[t]
}

/// Every row id `m1` records beyond `m0` is the text of a ULID.
pub open spec fn new_ids_are_ulids(m1: Map<TreeId, Seq<char>>, m0: Map<TreeId, Seq<char>>) -> bool {
    forall|t: TreeId| #[trigger] m1.contains_key(t) && !m0.contains_key(t) ==> crate::ids::ulid_parse(m1[t]) is Some
}

/// Every key of `m1` is a key of `m0` or the node of one of the shapes.
pub open spec fn keys_from(m1: Map<TreeId, Seq<char>>, m0: Map<TreeId, Seq<char>>, shapes: Seq<RowShape>) -> bool {
    forall|t: TreeId| #[trigger] m1.contains_key(t) ==> m0.contains_key(t) || exists|k: int| 0 <= k < shapes.len() && (#[trigger] shapes[k]).tree_id == t
}

proof fn lemma_row_matches_mono(r: TocRow, s: RowShape, m0: Map<TreeId, Seq<char>>, m1: Map<TreeId, Seq<char>>)
    requires
        row_matches(r, s, m0),
        map_extends(m1, m0),
    ensures
        row_matches(r, s, m1),
{
    assert(m0.contains_key(s.tree_id));
    if let Some(p) = s.parent {
        assert(m0.contains_key(p));
    }
}

impl TocDoc {
    /// Serialize the rows of the kept subtree rooted at the children of
    /// `parent` that appear from position `start` on, appending them to `out`.
    fn collect_rows(
        &self,
        parent: Option<TreeId>,
        parent_row_id: &Option<String>,
        start: usize,
        id_map: &mut RowIdMap,
        known: &PageIdSet,
        out: &mut Vec<TocRow>,
    )
        requires
            self.wf(),
            old(id_map).wf(),
            self.spec_nodes().len() < i32::MAX,
            start <= self.spec_nodes().len(),
            match parent {
                None => *parent_row_id is None,
                Some(p) => old(id_map)@.contains_key(p) && opt_str(*parent_row_id) == Some(old(id_map)@[p]),
            },
        ensures
            final(id_map).wf(),
            ({
                let sh = snapshot_rows(self.spec_nodes(), parent, start as int, 0, known@);
                &&& final(out)@.len() == old(out)@.len() + sh.len()
                &&& final(out)@.subrange(0, old(out)@.len() as int) == old(out)@
                &&& forall|k: int| 0 <= k < sh.len() ==> row_matches(#[trigger] final(out)@[old(out)@.len() + k], sh[k], final(id_map)@)
                &&& map_extends(final(id_map)@, old(id_map)@)
                &&& keys_from(final(id_map)@, old(id_map)@, sh)
                &&& new_ids_are_ulids(final(id_map)@, old(id_map)@)
            }),
        decreases self.spec_nodes().len() - start,
    {
        let ghost nodes = self.nodes@;
        let ghost kn = known@;
        let ghost old_len = out@.len();
        let ghost out0 = out@;
        let ghost m0 = id_map@;
        let ghost mut emitted: Seq<RowShape> = Seq::empty();
        let mut j: usize = start;
        let mut pos: i32 = 0;
        while j < self.nodes.len()
            invariant
                self.wf(),
                nodes == self.spec_nodes(),
                kn == known@,
                id_map.wf(),
                self.spec_nodes().len() < i32::MAX,
                start <= j <= nodes.len(),
                0 <= pos <= j - start,
                snapshot_rows(nodes, parent, start as int, 0, kn) == emitted + snapshot_rows(nodes, parent, j as int, pos as int, kn),
                out@.len() == old_len + emitted.len(),
                out@.subrange(0, old_len as int) == out0,
                forall|k: int| 0 <= k < emitted.len() ==> row_matches(#[trigger] out@[old_len + k], emitted[k], id_map@),
                map_extends(id_map@, m0),
                keys_from(id_map@, m0, emitted),
                new_ids_are_ulids(id_map@, m0),
                match parent {
                    None => *parent_row_id is None,
                    Some(p) => id_map@.contains_key(p) && opt_str(*parent_row_id) == Some(id_map@[p]),
                },
            decreases nodes.len() - j,
        {
            let node = &self.nodes[j];
            let keep: bool = if node.parent != parent {
                false
            } else {
                match &node.entry {
                    TocEntry::Folder { .. } => true,
                    TocEntry::Page { page_id, .. } => known.contains(page_id),
                    TocEntry::Suggestion { .. } => false,
                }
            };
            if !keep {
                j = j + 1;
            } else {
                let (page_id, folder_title) = match &node.entry {
                    TocEntry::Folder { title, .. } => (None, Some(title.clone())),
                    TocEntry::Page { page_id, .. } => (Some(*page_id), None),
                    TocEntry::Suggestion { .. } => (None, None),
                };
                let ghost m1 = id_map@;
                let tid = node.tree_id;
                let row_id = id_map.get_or_insert_fresh(tid);
                let ghost m2 = id_map@;
                let ghost s = shape_of(nodes[j as int], parent, pos as int);
                let row = TocRow {
                    id: row_id.clone(),
                    page_id,
                    folder_title,
                    visibility: node.entry.visibility(),
                    parent_id: clone_opt_string(parent_row_id),
                    position: pos,
                };
                let ghost out_prev = out@;
                out.push(row);
                let ghost out_pushed = out@;
                let ghost emitted1 = emitted.push(s);
                proof {
                    assert(map_extends(m2, m1));
                    assert forall|k: int| 0 <= k < emitted1.len() implies row_matches(#[trigger] out@[old_len + k], emitted1[k], m2) by {
                        if k < emitted.len() {
                            assert(out@[old_len + k] == out_prev[old_len + k]);
                            lemma_row_matches_mono(out_prev[old_len + k], emitted[k], m1, m2);
                        } else {
                            assert(out@[old_len + k] == out_pushed[out_prev.len() as int]);
                        }
                    }
                    assert forall|t: TreeId| #[trigger] m2.contains_key(t) implies m0.contains_key(t) || exists|k: int| 0 <= k < emitted1.len() && (#[trigger] emitted1[k]).tree_id == t by {
                        if t == tid {
                            assert(emitted1[emitted.len() as int].tree_id == t);
                        } else {
                            assert(m1.contains_key(t));
                            if !m0.contains_key(t) {
                                let k = choose|k: int| 0 <= k < emitted.len() && (#[trigger] emitted[k]).tree_id == t;
                                assert(emitted1[k] == emitted[k]);
                            }
                        }
                    }
                    assert(out@.subrange(0, old_len as int) =~= out0) by {
                        assert(out_prev.subrange(0, old_len as int) == out0);
                    }
                }
                let child_row: Option<String> = Some(row_id);
                self.collect_rows(Some(tid), &child_row, j + 1, id_map, known, out);
                let ghost m3 = id_map@;
                let ghost nested = snapshot_rows(nodes, Some(tid), j + 1, 0, kn);
                proof {
                    let e2 = emitted1 + nested;
                    assert forall|k: int| 0 <= k < e2.len() implies row_matches(#[trigger] out@[old_len + k], e2[k], m3) by {
                        if k < emitted1.len() {
                            assert(out@.subrange(0, out_pushed.len() as int) == out_pushed);
                            assert(out@[old_len + k] == out_pushed[old_len + k]);
                            lemma_row_matches_mono(out@[old_len + k], emitted1[k], m2, m3);
                        } else {
                            let k2 = k - emitted1.len();
                            assert(row_matches(out@[out_pushed.len() + k2], nested[k2], m3));
                        }
                    }
                    assert forall|t: TreeId| #[trigger] m0.contains_key(t) implies m3.contains_key(t) && m3[t] == m0[t] by {
                        assert(m2.contains_key(t));
                    }
                    assert forall|t: TreeId| #[trigger] m3.contains_key(t) implies m0.contains_key(t) || exists|k: int| 0 <= k < e2.len() && (#[trigger] e2[k]).tree_id == t by {
                        if !m2.contains_key(t) {
                            let k = choose|k: int| 0 <= k < nested.len() && (#[trigger] nested[k]).tree_id == t;
                            assert(e2[emitted1.len() + k] == nested[k]);
                        } else if !m0.contains_key(t) {
                            let k = choose|k: int| 0 <= k < emitted1.len() && (#[trigger] emitted1[k]).tree_id == t;
                            assert(e2[k] == emitted1[k]);
                        }
                    }
                    assert(out@.subrange(0, old_len as int) =~= out0) by {
                        assert(out@.subrange(0, out_pushed.len() as int) == out_pushed);
                        assert(out_prev.subrange(0, old_len as int) == out0);
                        assert forall|k: int| 0 <= k < old_len implies out@[k] == out0[k] by {
                            assert(out@[k] == out_pushed[k]);
                            assert(out_pushed[k] == out_prev[k]);
                        }
                    }
                    assert(snapshot_rows(nodes, parent, j as int, pos as int, kn)
                        == seq![s] + nested + snapshot_rows(nodes, parent, j + 1, pos + 1, kn));
                    assert(emitted + snapshot_rows(nodes, parent, j as int, pos as int, kn)
                        =~= e2 + snapshot_rows(nodes, parent, j + 1, pos + 1, kn));
                    emitted = e2;
                }
                pos = pos + 1;
                j = j + 1;
            }
        }
    }
}


/// Serialize the ToC tree into flat rows for persistence, in preorder,
/// skipping suggestions and page nodes whose page is not in `known_pages`
/// (together with their subtrees). Every row takes its node's row id from
/// `id_map`: a node already there keeps its id, a new node gets a fresh one
/// that is recorded for later snapshots.
pub fn snapshot_toc(doc: &TocDoc, id_map: &mut RowIdMap, known_pages: &PageIdSet) -> (rows: Vec<TocRow>)
    requires
        doc.wf(),
        old(id_map).wf(),
        doc.spec_nodes().len() < i32::MAX,
    ensures
        final(id_map).wf(),
        ({
            let sh = snapshot_rows(doc.spec_nodes(), None, 0, 0, known_pages@);
            &&& rows@.len() == sh.len()
            &&& forall|k: int| 0 <= k < sh.len() ==> row_matches(#[trigger] rows@[k], sh[k], final(id_map)@)
            &&& map_extends(final(id_map)@, old(id_map)@)
            &&& keys_from(final(id_map)@, old(id_map)@, sh)
            &&& new_ids_are_ulids(final(id_map)@, old(id_map)@)
        }),
        forall|k: int| 0 <= k < rows@.len() ==> exists|j: int| 0 <= j < doc.spec_nodes().len()
            && match (#[trigger] doc.spec_nodes()[j]).entry {
                TocEntry::Folder { title, visibility } => (#[trigger] rows@[k]).visibility == visibility
                    && opt_str(rows@[k].folder_title) == Some(title@) && rows@[k].page_id is None,
                TocEntry::Page { page_id, visibility, .. } => rows@[k].visibility == visibility
                    && rows@[k].page_id == Some(page_id) && known_pages@.contains(page_id),
                TocEntry::Suggestion { .. } => false,
            },
{
    let mut rows: Vec<TocRow> = Vec::new();
    let no_parent: Option<String> = None;
    doc.collect_rows(None, &no_parent, 0, id_map, known_pages, &mut rows);
    proof {
        let nodes = doc.spec_nodes();
        let sh = snapshot_rows(nodes, None, 0, 0, known_pages@);
        assert forall|k: int| 0 <= k < sh.len() implies row_matches(#[trigger] rows@[k], sh[k], id_map@) by {
            assert(rows@[0 + k] == rows@[k]);
        }
        law_snapshot_row_describes_its_node(nodes, None, 0, 0, known_pages@);
        assert forall|k: int| 0 <= k < rows@.len() implies exists|j: int| 0 <= j < nodes.len()
            && match (#[trigger] nodes[j]).entry {
                TocEntry::Folder { title, visibility } => (#[trigger] rows@[k]).visibility == visibility
                    && opt_str(rows@[k].folder_title) == Some(title@) && rows@[k].page_id is None,
                TocEntry::Page { page_id, visibility, .. } => rows@[k].visibility == visibility
                    && rows@[k].page_id == Some(page_id) && known_pages@.contains(page_id),
                TocEntry::Suggestion { .. } => false,
            } by {
            assert(row_matches(rows@[k], sh[k], id_map@));
            let j = choose|j: int| 0 <= j < nodes.len() && 0 <= j
                && (#[trigger] nodes[j]).tree_id == (#[trigger] sh[k]).tree_id
                && match nodes[j].entry {
                    TocEntry::Folder { title, visibility } => sh[k].visibility == visibility
                        && sh[k].folder_title == Some(title@) && sh[k].page_id is None,
                    TocEntry::Page { page_id, visibility, .. } => sh[k].visibility == visibility
                        && sh[k].page_id == Some(page_id) && known_pages@.contains(page_id) && sh[k].folder_title is None,
                    TocEntry::Suggestion { .. } => false,
                };
            assert(nodes[j].tree_id == sh[k].tree_id);
        }
    }
    rows
}

// ---------------------------------------------------------------------------
// Restore: rows + pages -> tree
// ---------------------------------------------------------------------------

/// What the ToC needs to know of a page during restore: the title and
/// visibility its node carries and the kind the client composes its display
/// name from.
#[derive(Debug)]
pub struct PageInfo {
    pub name: String,
    pub status: Status,
    pub page_kind: TocPageKind,
}

/// One page of the campaign, with its ToC information.
#[derive(Debug)]
pub struct PageRecord {
    pub page_id: PageId,
    pub info: PageInfo,
}

/// No page occurs twice.
pub open spec fn page_ids_distinct(pages: Seq<PageRecord>) -> bool {
    forall|i: int, j: int| 0 <= i < j < pages.len() ==> (#[trigger] pages[i]).page_id != (#[trigger] pages[j]).page_id
}

/// The information of a page, if the campaign has it.
pub open spec fn page_lookup(pages: Seq<PageRecord>, id: PageId) -> Option<PageInfo> {
    if exists|i: int| 0 <= i < pages.len() && (#[trigger] pages[i]).page_id == id {
        Some(pages[choose|i: int| 0 <= i < pages.len() && (#[trigger] pages[i]).page_id == id].info)
    } else {
        None
    }
}

/// The entry a row restores to: a page row takes its title and kind from
/// the current page (and is dropped when the page no longer exists), a
/// folder row its stored title (empty when absent); both keep the row's
/// visibility.
pub open spec fn spec_row_to_entry(row: TocRow, pages: Seq<PageRecord>) -> Option<TocEntryView> {
    match row.page_id {
        Some(pid) => match page_lookup(pages, pid) {
            Some(info) => Some(TocEntryView::Page {
                title: info.name@,
                page_id: pid,
                page_kind: info.page_kind,
                visibility: row.visibility,
            }),
            None => None,
        },
        None => Some(TocEntryView::Folder {
            title: match row.folder_title {
                Some(t) => t@,
                None => Seq::empty(),
            },
            visibility: row.visibility,
        }),
    }
}

/// A restored node before its tree id is known: the position of its parent
/// among the restored nodes (`None` at the root), its entry and its row id.
pub struct RestoredNode {
    pub parent: Option<int>,
    pub entry: TocEntryView,
    pub row_id: Seq<char>,
}

/// The state after restoring a prefix of the sorted rows: the nodes added,
/// the position each row id was restored at, and the pages referenced.
pub struct RestoreState {
    pub nodes: Seq<RestoredNode>,
    pub row_pos: Map<Seq<char>, int>,
    pub referenced: Set<PageId>,
}

/// Restore the first `n` sorted rows. A row's parent resolves through the
/// rows restored before it; a row whose parent was not restored lands at
/// the root.
pub open spec fn restore_prefix(sorted: Seq<TocRow>, pages: Seq<PageRecord>, n: int) -> RestoreState
    decreases n,
{
    if n <= 0 {
        RestoreState { nodes: Seq::empty(), row_pos: Map::empty(), referenced: Set::empty() }
    } else {
        let st = restore_prefix(sorted, pages, n - 1);
        let row = sorted[n - 1];
        let parent = match row.parent_id {
            Some(pid) => if st.row_pos.contains_key(pid@) {
                Some(st.row_pos[pid@])
            } else {
                None
            },
            None => None,
        };
        match spec_row_to_entry(row, pages) {
            None => st,
            Some(e) => RestoreState {
                nodes: st.nodes.push(RestoredNode { parent, entry: e, row_id: row.id@ }),
                row_pos: st.row_pos.insert(row.id@, st.nodes.len() as int),
                referenced: match row.page_id {
                    Some(p) => st.referenced.insert(p),
                    None => st.referenced,
                },
            },
        }
    }
}

/// The pages among the first `n` that no restored row references, in the
/// order given.
pub open spec fn orphans_prefix(pages: Seq<PageRecord>, referenced: Set<PageId>, n: int) -> Seq<PageRecord>
    decreases n,
{
    if n <= 0 {
        Seq::empty()
    } else if !referenced.contains(pages[n - 1].page_id) {
        orphans_prefix(pages, referenced, n - 1).push(pages[n - 1])
    } else {
        orphans_prefix(pages, referenced, n - 1)
    }
}

/// The pages no restored row references, in the order given.
pub open spec fn orphan_pages(pages: Seq<PageRecord>, referenced: Set<PageId>) -> Seq<PageRecord> {
    orphans_prefix(pages, referenced, pages.len() as int)
}

/// The root entry an orphan page is restored as: its own title, kind and
/// visibility.
pub open spec fn orphan_entry(r: PageRecord) -> TocEntryView {
    TocEntryView::Page {
        title: r.info.name@,
        page_id: r.page_id,
        page_kind: r.info.page_kind,
        visibility: r.info.status,
    }
}

/// A map from row ids to tree ids (the parent lookup of restore). A later
/// insert of the same row id replaces the earlier one. Held as a vector of
/// entries with distinct keys (vstd's hash tables are specified only for
/// primitive keys, not for `String`).
pub struct RowTreeMap {
    entries: Vec<(String, TreeId)>,
}

pub open spec fn str_keys_distinct(entries: Seq<(String, TreeId)>) -> bool {
    forall|i: int, j: int| 0 <= i < j < entries.len() ==> (#[trigger] entries[i]).0@ != (#[trigger] entries[j]).0@
}

impl View for RowTreeMap {
    type V = Map<Seq<char>, TreeId>;

    closed spec fn view(&self) -> Map<Seq<char>, TreeId> {
        Map::new(
            |k: Seq<char>| exists|i: int| 0 <= i < self.entries@.len() && (#[trigger] self.entries@[i]).0@ == k,
            |k: Seq<char>| self.entries@[choose|i: int| 0 <= i < self.entries@.len() && (#[trigger] self.entries@[i]).0@ == k].1,
        )
    }
}

impl RowTreeMap {
    pub closed spec fn wf(&self) -> bool {
        str_keys_distinct(self.entries@)
    }

    pub fn new() -> (m: RowTreeMap)
        ensures
            m.wf(),
            m@ == Map::<Seq<char>, TreeId>::empty(),
    {
        let m = RowTreeMap { entries: Vec::new() };
        assert(m@ =~= Map::<Seq<char>, TreeId>::empty());
        m
    }

    fn find(&self, k: &String) -> (r: Option<usize>)
        requires
            self.wf(),
        ensures
            match r {
                Some(i) => i < self.entries@.len() && self.entries@[i as int].0@ == k@
                    && self@.contains_key(k@) && self@[k@] == self.entries@[i as int].1,
                None => !self@.contains_key(k@),
            },
    {
        let mut i: usize = 0;
        while i < self.entries.len()
            invariant
                self.wf(),
                0 <= i <= self.entries@.len(),
                forall|j: int| 0 <= j < i ==> (#[trigger] self.entries@[j]).0@ != k@,
            decreases self.entries@.len() - i,
        {
            if self.entries[i].0 == *k {
                proof {
                    let es = self.entries@;
                    let c = choose|c: int| 0 <= c < es.len() && (#[trigger] es[c]).0@ == k@;
                    if c != i {
                        if c < i {
                            assert(es[c].0@ != es[i as int].0@);
                        } else {
                            assert(es[i as int].0@ != es[c].0@);
                        }
                    }
                }
                return Some(i);
            }
            i = i + 1;
        }
        None
    }

    pub fn get(&self, k: &String) -> (r: Option<TreeId>)
        requires
            self.wf(),
        ensures
            match r {
                Some(t) => self@.contains_key(k@) && t == self@[k@],
                None => !self@.contains_key(k@),
            },
    {
        match self.find(k) {
            Some(i) => Some(self.entries[i].1),
            None => None,
        }
    }

    pub fn insert(&mut self, k: String, t: TreeId)
        requires
            old(self).wf(),
        ensures
            final(self).wf(),
            final(self)@ == old(self)@.insert(k@, t),
    {
        let ghost kv = k@;
        let ghost old_es = self.entries@;
        match self.find(&k) {
            Some(i) => {
                self.entries.set(i, (k, t));
                proof {
                    let es = self.entries@;
                    assert forall|a: int, b: int| 0 <= a < b < es.len() implies (#[trigger] es[a]).0@ != (#[trigger] es[b]).0@ by {
                        assert(old_es[a].0@ != old_es[b].0@);
                    }
                    assert(self@ =~= old(self)@.insert(kv, t)) by {
                        assert forall|u: Seq<char>| self@.contains_key(u) implies old(self)@.insert(kv, t).contains_key(u) by {
                            let c = choose|c: int| 0 <= c < es.len() && (#[trigger] es[c]).0@ == u;
                            if c != i {
                                assert(old_es[c] == es[c]);
                            }
                        }
                        assert forall|u: Seq<char>| old(self)@.insert(kv, t).contains_key(u) implies self@.contains_key(u) by {
                            if u == kv {
                                assert(es[i as int].0@ == u);
                            } else {
                                let c = choose|c: int| 0 <= c < old_es.len() && (#[trigger] old_es[c]).0@ == u;
                                assert(es[c] == old_es[c]);
                            }
                        }
                        assert forall|u: Seq<char>| self@.contains_key(u) implies self@[u] == old(self)@.insert(kv, t)[u] by {
                            let c = choose|c: int| 0 <= c < es.len() && (#[trigger] es[c]).0@ == u;
                            if u == kv {
                                if c != i {
                                    if c < i {
                                        assert(es[c].0@ != es[i as int].0@);
                                    } else {
                                        assert(es[i as int].0@ != es[c].0@);
                                    }
                                }
                            } else {
                                assert(c != i);
                                assert(old_es[c] == es[c]);
                                let d = choose|d: int| 0 <= d < old_es.len() && (#[trigger] old_es[d]).0@ == u;
                                if d != c {
                                    if d < c {
                                        assert(old_es[d].0@ != old_es[c].0@);
                                    } else {
                                        assert(old_es[c].0@ != old_es[d].0@);
                                    }
                                }
                            }
                        }
                    }
                }
            },
            None => {
                self.entries.push((k, t));
                proof {
                    let es = self.entries@;
                    assert forall|a: int, b: int| 0 <= a < b < es.len() implies (#[trigger] es[a]).0@ != (#[trigger] es[b]).0@ by {
                        assert(es[a] == old_es[a]);
                        if b == es.len() - 1 {
                            if es[a].0@ == kv {
                                assert(old(self)@.contains_key(kv));
                            }
                        } else {
                            assert(es[b] == old_es[b]);
                        }
                    }
                    assert(self@ =~= old(self)@.insert(kv, t)) by {
                        assert forall|u: Seq<char>| self@.contains_key(u) implies old(self)@.insert(kv, t).contains_key(u) by {
                            let c = choose|c: int| 0 <= c < es.len() && (#[trigger] es[c]).0@ == u;
                            if c < old_es.len() {
                                assert(old_es[c] == es[c]);
                            }
                        }
                        assert forall|u: Seq<char>| old(self)@.insert(kv, t).contains_key(u) implies self@.contains_key(u) by {
                            if u == kv {
                                assert(es[es.len() - 1].0@ == u);
                            } else {
                                let c = choose|c: int| 0 <= c < old_es.len() && (#[trigger] old_es[c]).0@ == u;
                                assert(es[c] == old_es[c]);
                            }
                        }
                        assert forall|u: Seq<char>| self@.contains_key(u) implies self@[u] == old(self)@.insert(kv, t)[u] by {
                            let c = choose|c: int| 0 <= c < es.len() && (#[trigger] es[c]).0@ == u;
                            if u == kv {
                                if c != es.len() - 1 {
                                    assert(es[c] == old_es[c]);
                                    assert(old(self)@.contains_key(kv));
                                }
                            } else {
                                assert(c < old_es.len());
                                assert(old_es[c] == es[c]);
                                let d = choose|d: int| 0 <= d < old_es.len() && (#[trigger] old_es[d]).0@ == u;
                                if d != c {
                                    if d < c {
                                        assert(old_es[d].0@ != old_es[c].0@);
                                    } else {
                                        assert(old_es[c].0@ != old_es[d].0@);
                                    }
                                }
                            }
                        }
                    }
                }
            },
        }
    }
}


/// The position of a page in the campaign's pages.
fn find_page(pages: &Vec<PageRecord>, id: &PageId) -> (r: Option<usize>)
    requires
        page_ids_distinct(pages@),
    ensures
        match r {
            Some(i) => i < pages@.len() && pages@[i as int].page_id == *id
                && page_lookup(pages@, *id) == Some(pages@[i as int].info),
            None => page_lookup(pages@, *id) is None,
        },
{
    let mut i: usize = 0;
    while i < pages.len()
        invariant
            page_ids_distinct(pages@),
            0 <= i <= pages@.len(),
            forall|j: int| 0 <= j < i ==> (#[trigger] pages@[j]).page_id != *id,
        decreases pages@.len() - i,
    {
        if pages[i].page_id == *id {
            proof {
                let ps = pages@;
                let c = choose|c: int| 0 <= c < ps.len() && (#[trigger] ps[c]).page_id == *id;
                if c != i {
                    if c < i {
                        assert(ps[c].page_id != ps[i as int].page_id);
                    } else {
                        assert(ps[i as int].page_id != ps[c].page_id);
                    }
                }
            }
            return Some(i);
        }
        i = i + 1;
    }
    None
}

/// Convert a row into the entry it restores to; `None` for a page row whose
/// page no longer exists (deleted between writeback and restore).
pub fn row_to_entry(row: &TocRow, pages: &Vec<PageRecord>) -> (r: Option<TocEntry>)
    requires
        page_ids_distinct(pages@),
    ensures
        match r {
            Some(e) => spec_row_to_entry(*row, pages@) == Some(e@),
            None => spec_row_to_entry(*row, pages@) is None,
        },
        r matches Some(e) ==> match e {
            TocEntry::Folder { visibility, .. } => visibility == row.visibility && row.page_id is None,
            TocEntry::Page { page_id, visibility, .. } => visibility == row.visibility && row.page_id == Some(page_id),
            TocEntry::Suggestion { .. } => false,
        },
{
    proof {
        law_restored_entry_keeps_its_row(*row, pages@);
    }
    let visibility = row.visibility;
    match &row.page_id {
        Some(page_id) => match find_page(pages, page_id) {
            Some(i) => {
                let info = &pages[i].info;
                Some(TocEntry::Page {
                    title: info.name.clone(),
                    page_id: *page_id,
                    page_kind: info.page_kind,
                    visibility,
                })
            },
            None => None,
        },
        None => {
            let title = match &row.folder_title {
                Some(t) => t.clone(),
                None => String::new(),
            };
            Some(TocEntry::Folder { title, visibility })
        },
    }
}

/// A row restores to what it says: the entry keeps the row's visibility; a
/// folder row becomes a folder with the row's title (empty when absent); a
/// page row becomes a node for that page, titled and kinded from the page's
/// record, and is dropped only when no record holds the page.
pub proof fn law_restored_entry_keeps_its_row(row: TocRow, pages: Seq<PageRecord>)
    ensures
        match spec_row_to_entry(row, pages) {
            Some(TocEntryView::Folder { title, visibility }) => {
                &&& visibility == row.visibility
                &&& row.page_id is None
                &&& title == (match row.folder_title { Some(t) => t@, None => Seq::<char>::empty() })
            },
            Some(TocEntryView::Page { title, page_id, page_kind, visibility }) => {
                &&& visibility == row.visibility
                &&& row.page_id == Some(page_id)
                &&& exists|i: int| 0 <= i < pages.len() && (#[trigger] pages[i]).page_id == page_id
                    && title == pages[i].info.name@ && page_kind == pages[i].info.page_kind
            },
            Some(TocEntryView::Suggestion { .. }) => false,
            None => row.page_id is Some
                && forall|i: int| 0 <= i < pages.len() ==> (#[trigger] pages[i]).page_id != row.page_id.unwrap(),
        },
{
    if let Some(pid) = row.page_id {
        if exists|i: int| 0 <= i < pages.len() && (#[trigger] pages[i]).page_id == pid {
            let i = choose|i: int| 0 <= i < pages.len() && (#[trigger] pages[i]).page_id == pid;
            assert(pages[i].page_id == pid);
        }
    }
}

/// The restored tree, the row id of every node, and whether orphan pages
/// were appended (the caller should then write the ToC back).
pub struct Restored {
    pub doc: TocDoc,
    pub id_map: RowIdMap,
    pub dirty: bool,
}

/// Whether a node holds the tree id `TreeId { peer, counter: k }` at every
/// position `k`.
pub open spec fn sequential_ids(nodes: Seq<TocNode>, peer: u64) -> bool {
    forall|k: int| 0 <= k < nodes.len() ==> (#[trigger] nodes[k]).tree_id == (TreeId { peer, counter: k as i32 })
}

/// The first nodes carry the restore state's nodes: same entries, parents
/// resolved to the nodes at the recorded positions, and row ids from the map.
pub open spec fn carries(nodes: Seq<TocNode>, st: RestoreState, id_map: Map<TreeId, Seq<char>>) -> bool {
    &&& nodes.len() >= st.nodes.len()
    &&& forall|k: int| 0 <= k < st.nodes.len() ==> carries_at(nodes, st, id_map, k)
}

pub open spec fn carries_at(nodes: Seq<TocNode>, st: RestoreState, id_map: Map<TreeId, Seq<char>>, k: int) -> bool {
    &&& nodes[k].entry@ == st.nodes[k].entry
    &&& match st.nodes[k].parent {
        Some(j) => 0 <= j < k && nodes[k].parent == Some(nodes[j].tree_id),
        None => nodes[k].parent is None,
    }
    &&& id_map.contains_key(nodes[k].tree_id)
    &&& id_map[nodes[k].tree_id] == st.nodes[k].row_id
}

/// The parent lookup resolves every restored row id to its node.
pub open spec fn lookup_resolves(rtt: Map<Seq<char>, TreeId>, st: RestoreState, nodes: Seq<TocNode>) -> bool {
    &&& forall|key: Seq<char>| #[trigger] rtt.contains_key(key) <==> st.row_pos.contains_key(key)
    &&& forall|key: Seq<char>| #[trigger] st.row_pos.contains_key(key) ==> 0 <= st.row_pos[key] < nodes.len()
        && rtt[key] == nodes[st.row_pos[key]].tree_id
}

/// The id map holds exactly the nodes of the tree.
pub open spec fn map_covers(m: Map<TreeId, Seq<char>>, nodes: Seq<TocNode>) -> bool {
    forall|t: TreeId| #[trigger] m.contains_key(t) <==> holds(nodes, t)
}

/// The state of restore after the rows: the tree carries the restored
/// nodes and nothing else.
#[verifier::opaque]
pub open spec fn rows_phase(nodes: Seq<TocNode>, peer: u64, st: RestoreState, m: Map<TreeId, Seq<char>>, rtt: Map<Seq<char>, TreeId>) -> bool {
    &&& sequential_ids(nodes, peer)
    &&& nodes.len() == st.nodes.len()
    &&& carries(nodes, st, m)
    &&& lookup_resolves(rtt, st, nodes)
    &&& map_covers(m, nodes)
}

/// The state of restore while orphans are appended after the restored rows.
#[verifier::opaque]
pub open spec fn orphan_phase(nodes: Seq<TocNode>, peer: u64, st: RestoreState, orph: Seq<PageRecord>, m: Map<TreeId, Seq<char>>) -> bool {
    &&& sequential_ids(nodes, peer)
    &&& nodes.len() == st.nodes.len() + orph.len()
    &&& carries(nodes, st, m)
    &&& forall|k: int| 0 <= k < orph.len() ==> orphan_at(nodes, st.nodes.len() as int, orph, m, k)
    &&& map_covers(m, nodes)
}

pub open spec fn orphan_at(nodes: Seq<TocNode>, base: int, orph: Seq<PageRecord>, m: Map<TreeId, Seq<char>>, k: int) -> bool {
    &&& nodes[base + k].entry@ == orphan_entry(orph[k])
    &&& nodes[base + k].parent is None
    &&& m.contains_key(nodes[base + k].tree_id)
    &&& m[nodes[base + k].tree_id].len() == 26
}

/// The parent a row resolves to through the rows restored before it.
pub open spec fn resolved_parent(row: TocRow, st: RestoreState) -> Option<int> {
    match row.parent_id {
        Some(pid) => if st.row_pos.contains_key(pid@) {
            Some(st.row_pos[pid@])
        } else {
            None
        },
        None => None,
    }
}

proof fn lemma_rows_phase_empty(peer: u64, sorted: Seq<TocRow>, pages: Seq<PageRecord>)
    ensures
        rows_phase(Seq::empty(), peer, restore_prefix(sorted, pages, 0), Map::empty(), Map::empty()),
{
    reveal(rows_phase);
    assert forall|t: TreeId| #[trigger] Map::<TreeId, Seq<char>>::empty().contains_key(t) <==> holds(Seq::<TocNode>::empty(), t) by {}
}

/// Adding the node of one restored row keeps the rows-phase state.
proof fn lemma_rows_phase_add(
    nodes0: Seq<TocNode>,
    nodes1: Seq<TocNode>,
    peer: u64,
    st: RestoreState,
    st1: RestoreState,
    m0: Map<TreeId, Seq<char>>,
    m1: Map<TreeId, Seq<char>>,
    rtt0: Map<Seq<char>, TreeId>,
    rtt1: Map<Seq<char>, TreeId>,
    row: TocRow,
    e: TocEntryView,
)
    requires
        rows_phase(nodes0, peer, st, m0, rtt0),
        nodes0.len() + 1 < i32::MAX,
        nodes1.len() == nodes0.len() + 1,
        nodes1.drop_last() == nodes0,
        nodes1.last().tree_id == (TreeId { peer, counter: nodes0.len() as i32 }),
        nodes1.last().entry@ == e,
        nodes1.last().parent == (match resolved_parent(row, st) {
            Some(j) => Some(nodes0[j].tree_id),
            None => None,
        }),
        st1.nodes == st.nodes.push(RestoredNode { parent: resolved_parent(row, st), entry: e, row_id: row.id@ }),
        st1.row_pos == st.row_pos.insert(row.id@, st.nodes.len() as int),
        m1 == m0.insert(nodes1.last().tree_id, row.id@),
        rtt1 == rtt0.insert(row.id@, nodes1.last().tree_id),
    ensures
        rows_phase(nodes1, peer, st1, m1, rtt1),
{
    reveal(rows_phase);
    let tid = nodes1.last().tree_id;
    assert(!m0.contains_key(tid)) by {
        if m0.contains_key(tid) {
            let k = choose|k: int| 0 <= k < nodes0.len() && (#[trigger] nodes0[k]).tree_id == tid;
            assert(nodes0[k].tree_id == (TreeId { peer, counter: k as i32 }));
        }
    }
    assert forall|k: int| 0 <= k < nodes1.len() implies (#[trigger] nodes1[k]).tree_id == (TreeId { peer, counter: k as i32 }) by {
        if k < nodes0.len() {
            assert(nodes1[k] == nodes0[k]);
        }
    }
    assert forall|k: int| 0 <= k < st1.nodes.len() implies carries_at(nodes1, st1, m1, k) by {
        if k < nodes0.len() {
            assert(carries_at(nodes0, st, m0, k));
            assert(nodes1[k] == nodes0[k]);
            assert(st1.nodes[k] == st.nodes[k]);
            if let Some(j) = st.nodes[k].parent {
                assert(nodes1[j] == nodes0[j]);
            }
            assert(nodes0[k].tree_id != tid);
        } else {
            if let Some(j) = resolved_parent(row, st) {
                assert(nodes1[j] == nodes0[j]);
            }
        }
    }
    assert forall|key: Seq<char>| #[trigger] st1.row_pos.contains_key(key) implies 0 <= st1.row_pos[key] < nodes1.len()
        && rtt1[key] == nodes1[st1.row_pos[key]].tree_id by {
        if key != row.id@ {
            let j = st.row_pos[key];
            assert(nodes1[j] == nodes0[j]);
        }
    }
    assert forall|t: TreeId| #[trigger] m1.contains_key(t) <==> holds(nodes1, t) by {
        if m1.contains_key(t) {
            if t == tid {
                assert(nodes1[nodes1.len() - 1].tree_id == t);
            } else {
                assert(m0.contains_key(t));
                let k = choose|k: int| 0 <= k < nodes0.len() && (#[trigger] nodes0[k]).tree_id == t;
                assert(nodes1[k] == nodes0[k]);
            }
        }
        if holds(nodes1, t) {
            let k = choose|k: int| 0 <= k < nodes1.len() && (#[trigger] nodes1[k]).tree_id == t;
            if k < nodes0.len() {
                assert(nodes1[k] == nodes0[k]);
                assert(holds(nodes0, t));
            }
        }
    }
}

/// The rows phase ends where the orphan phase starts.
proof fn lemma_orphan_phase_start(nodes: Seq<TocNode>, peer: u64, st: RestoreState, m: Map<TreeId, Seq<char>>, rtt: Map<Seq<char>, TreeId>)
    requires
        rows_phase(nodes, peer, st, m, rtt),
    ensures
        orphan_phase(nodes, peer, st, Seq::empty(), m),
{
    reveal(rows_phase);
    reveal(orphan_phase);
}

/// Appending one orphan keeps the orphan-phase state.
proof fn lemma_orphan_phase_add(
    nodes0: Seq<TocNode>,
    nodes1: Seq<TocNode>,
    peer: u64,
    st: RestoreState,
    orph0: Seq<PageRecord>,
    page: PageRecord,
    m0: Map<TreeId, Seq<char>>,
    m1: Map<TreeId, Seq<char>>,
    row_id: Seq<char>,
)
    requires
        orphan_phase(nodes0, peer, st, orph0, m0),
        nodes0.len() + 1 < i32::MAX,
        nodes1.len() == nodes0.len() + 1,
        nodes1.drop_last() == nodes0,
        nodes1.last().tree_id == (TreeId { peer, counter: nodes0.len() as i32 }),
        nodes1.last().entry@ == orphan_entry(page),
        nodes1.last().parent is None,
        row_id.len() == 26,
        m1 == m0.insert(nodes1.last().tree_id, row_id),
    ensures
        orphan_phase(nodes1, peer, st, orph0.push(page), m1),
{
    reveal(orphan_phase);
    let tid = nodes1.last().tree_id;
    let base = st.nodes.len() as int;
    let orph1 = orph0.push(page);
    assert(!m0.contains_key(tid)) by {
        if m0.contains_key(tid) {
            let k = choose|k: int| 0 <= k < nodes0.len() && (#[trigger] nodes0[k]).tree_id == tid;
            assert(nodes0[k].tree_id == (TreeId { peer, counter: k as i32 }));
        }
    }
    assert forall|k: int| 0 <= k < nodes1.len() implies (#[trigger] nodes1[k]).tree_id == (TreeId { peer, counter: k as i32 }) by {
        if k < nodes0.len() {
            assert(nodes1[k] == nodes0[k]);
        }
    }
    assert forall|k: int| 0 <= k < st.nodes.len() implies carries_at(nodes1, st, m1, k) by {
        assert(carries_at(nodes0, st, m0, k));
        assert(nodes1[k] == nodes0[k]);
        if let Some(j) = st.nodes[k].parent {
            assert(nodes1[j] == nodes0[j]);
        }
        assert(nodes0[k].tree_id != tid);
    }
    assert forall|k: int| 0 <= k < orph1.len() implies orphan_at(nodes1, base, orph1, m1, k) by {
        if k < orph0.len() {
            assert(orphan_at(nodes0, base, orph0, m0, k));
            assert(nodes1[base + k] == nodes0[base + k]);
            assert(nodes0[base + k].tree_id != tid);
        }
    }
    assert forall|t: TreeId| #[trigger] m1.contains_key(t) <==> holds(nodes1, t) by {
        if m1.contains_key(t) {
            if t == tid {
                assert(nodes1[nodes1.len() - 1].tree_id == t);
            } else {
                assert(m0.contains_key(t));
                let k = choose|k: int| 0 <= k < nodes0.len() && (#[trigger] nodes0[k]).tree_id == t;
                assert(nodes1[k] == nodes0[k]);
            }
        }
        if holds(nodes1, t) {
            let k = choose|k: int| 0 <= k < nodes1.len() && (#[trigger] nodes1[k]).tree_id == t;
            if k < nodes0.len() {
                assert(nodes1[k] == nodes0[k]);
                assert(holds(nodes0, t));
            }
        }
    }
}

/// The restored tree, as `restore_toc` states it.
pub open spec fn restored_as(nodes: Seq<TocNode>, st: RestoreState, orphans: Seq<PageRecord>, m: Map<TreeId, Seq<char>>) -> bool {
    &&& nodes.len() == st.nodes.len() + orphans.len()
    &&& carries(nodes, st, m)
    &&& forall|k: int| 0 <= k < orphans.len() ==> orphan_at(nodes, st.nodes.len() as int, orphans, m, k)
    &&& map_covers(m, nodes)
}

proof fn lemma_orphan_phase_end(nodes: Seq<TocNode>, peer: u64, st: RestoreState, orph: Seq<PageRecord>, m: Map<TreeId, Seq<char>>)
    requires
        orphan_phase(nodes, peer, st, orph, m),
    ensures
        restored_as(nodes, st, orph, m),
{
    reveal(orphan_phase);
}

/// Rebuild the ToC tree from persisted rows and the campaign's current
/// pages. Rows are added in topological order (parents first, siblings in
/// input order); page titles come from `pages`, so they are always fresh.
/// Every page no row references is an orphan: appended at the root with
/// its own visibility and a fresh row id, which makes the result dirty.
pub fn restore_toc(entries: Vec<TocRow>, pages: &Vec<PageRecord>) -> (r: Restored)
    requires
        page_ids_distinct(pages@),
        entries@.len() + pages@.len() < i32::MAX,
    ensures
        r.doc.wf(),
        r.id_map.wf(),
        ({
            let sorted = spec_topological_sort(entries@, Set::empty());
            let st = restore_prefix(sorted, pages@, sorted.len() as int);
            let orphans = orphan_pages(pages@, st.referenced);
            &&& restored_as(r.doc.spec_nodes(), st, orphans, r.id_map@)
            &&& r.dirty == (orphans.len() > 0)
        }),
{
    let ghost input = entries@;
    let mut doc = TocDoc::new();
    let sorted = topological_sort(entries);
    let ghost peer = doc.spec_peer();
    proof {
        lemma_topological_sort_len(input, Set::empty());
        lemma_rows_phase_empty(peer, sorted@, pages@);
    }
    let mut row_to_tree = RowTreeMap::new();
    let mut tree_to_row = RowIdMap::new();
    let mut referenced = PageIdSet::new();
    proof {
        assert(doc.spec_nodes() =~= Seq::<TocNode>::empty());
    }
    let mut i: usize = 0;
    while i < sorted.len()
        invariant
            page_ids_distinct(pages@),
            sorted@.len() + pages@.len() < i32::MAX,
            0 <= i <= sorted@.len(),
            doc.wf(),
            doc.spec_peer() == peer,
            doc.spec_next_counter() == doc.spec_nodes().len(),
            doc.spec_nodes().len() <= i,
            row_to_tree.wf(),
            tree_to_row.wf(),
            rows_phase(doc.spec_nodes(), peer, restore_prefix(sorted@, pages@, i as int), tree_to_row@, row_to_tree@),
            referenced@ == restore_prefix(sorted@, pages@, i as int).referenced,
        decreases sorted@.len() - i,
    {
        let entry = &sorted[i];
        let ghost st = restore_prefix(sorted@, pages@, i as int);
        let ghost nodes0 = doc.spec_nodes();
        let ghost m0 = tree_to_row@;
        let ghost rtt0 = row_to_tree@;
        proof {
            reveal(rows_phase);
        }
        let parent_tree = match &entry.parent_id {
            Some(pid) => row_to_tree.get(pid),
            None => None,
        };
        proof {
            assert(parent_tree == (match resolved_parent(*entry, st) {
                Some(j) => Some(nodes0[j].tree_id),
                None => None,
            }));
        }
        let toc_entry = row_to_entry(entry, pages);
        match toc_entry {
            None => {},
            Some(toc_entry) => {
                if let Some(tid) = entry.page_id {
                    referenced.insert(tid);
                }
                let ghost ev = toc_entry@;
                let added = doc.add_entry(parent_tree, toc_entry);
                let tree_id = match added {
                    Ok(t) => t,
                    Err(_) => {
                        proof {
                            if let Some(p) = parent_tree {
                                let j = resolved_parent(*entry, st).unwrap();
                                assert(nodes0[j].tree_id == p);
                            }
                        }
                        TreeId { peer: 0, counter: 0 }
                    },
                };
                proof {
                    if let Some(p) = parent_tree {
                        let j = resolved_parent(*entry, st).unwrap();
                        assert(nodes0[j].tree_id == p);
                    }
                    assert(!tree_to_row@.contains_key(tree_id)) by {
                        if tree_to_row@.contains_key(tree_id) {
                            let k = choose|k: int| 0 <= k < nodes0.len() && (#[trigger] nodes0[k]).tree_id == tree_id;
                            assert(nodes0[k].tree_id == (TreeId { peer, counter: k as i32 }));
                        }
                    }
                }
                tree_to_row.insert_new(tree_id, entry.id.clone());
                row_to_tree.insert(entry.id.clone(), tree_id);
                proof {
                    lemma_rows_phase_add(
                        nodes0,
                        doc.spec_nodes(),
                        peer,
                        st,
                        restore_prefix(sorted@, pages@, i + 1),
                        m0,
                        tree_to_row@,
                        rtt0,
                        row_to_tree@,
                        *entry,
                        ev,
                    );
                }
            },
        }
        i = i + 1;
    }
    let ghost st = restore_prefix(sorted@, pages@, sorted@.len() as int);
    proof {
        lemma_orphan_phase_start(doc.spec_nodes(), peer, st, tree_to_row@, row_to_tree@);
        reveal(rows_phase);
    }
    let mut dirty = false;
    let mut q: usize = 0;
    while q < pages.len()
        invariant
            page_ids_distinct(pages@),
            sorted@.len() + pages@.len() < i32::MAX,
            st.nodes.len() <= sorted@.len(),
            0 <= q <= pages@.len(),
            doc.wf(),
            doc.spec_peer() == peer,
            doc.spec_next_counter() == doc.spec_nodes().len(),
            doc.spec_nodes().len() == st.nodes.len() + orphans_prefix(pages@, st.referenced, q as int).len(),
            orphans_prefix(pages@, st.referenced, q as int).len() <= q,
            tree_to_row.wf(),
            orphan_phase(doc.spec_nodes(), peer, st, orphans_prefix(pages@, st.referenced, q as int), tree_to_row@),
            referenced@ == st.referenced,
            dirty == (orphans_prefix(pages@, st.referenced, q as int).len() > 0),
        decreases pages@.len() - q,
    {
        let page = &pages[q];
        let ghost nodes0 = doc.spec_nodes();
        let ghost orph0 = orphans_prefix(pages@, st.referenced, q as int);
        let ghost m0 = tree_to_row@;
        if !referenced.contains(&page.page_id) {
            let entry = TocEntry::Page {
                title: page.info.name.clone(),
                page_id: page.page_id,
                page_kind: page.info.page_kind,
                visibility: page.info.status,
            };
            let added = doc.add_entry(None, entry);
            let tree_id = match added {
                Ok(t) => t,
                Err(_) => TreeId { peer: 0, counter: 0 },
            };
            proof {
                reveal(orphan_phase);
                assert(!tree_to_row@.contains_key(tree_id)) by {
                    if tree_to_row@.contains_key(tree_id) {
                        let k = choose|k: int| 0 <= k < nodes0.len() && (#[trigger] nodes0[k]).tree_id == tree_id;
                        assert(nodes0[k].tree_id == (TreeId { peer, counter: k as i32 }));
                    }
                }
            }
            let row_id = fresh_row_id();
            let ghost rid = row_id@;
            tree_to_row.insert_new(tree_id, row_id);
            dirty = true;
            proof {
                assert(orphans_prefix(pages@, st.referenced, q + 1) == orph0.push(pages@[q as int]));
                lemma_orphan_phase_add(nodes0, doc.spec_nodes(), peer, st, orph0, pages@[q as int], m0, tree_to_row@, rid);
            }
        } else {
            proof {
                assert(orphans_prefix(pages@, st.referenced, q + 1) == orph0);
            }
        }
        q = q + 1;
    }
    proof {
        lemma_orphan_phase_end(doc.spec_nodes(), peer, st, orphans_prefix(pages@, st.referenced, pages@.len() as int), tree_to_row@);
    }
    Restored { doc, id_map: tree_to_row, dirty }
}

proof fn lemma_topological_sort_len(rem: Seq<TocRow>, placed: Set<Seq<char>>)
    ensures
        spec_topological_sort(rem, placed).len() <= rem.len(),
    decreases rem.len(),
{
    if rem.len() > 0 {
        let r = sort_pass(rem, placed, Set::empty());
        lemma_sort_pass_len(rem, placed, Set::empty());
        if r.1.len() != rem.len() {
            lemma_topological_sort_len(r.1, r.2);
        }
    }
}


// ---------------------------------------------------------------------------
// Laws
// ---------------------------------------------------------------------------

/// `x` is the id of one of the rows.
pub open spec fn has_row_id(rows: Seq<TocRow>, x: Seq<char>) -> bool {
    exists|k: int| 0 <= k < rows.len() && (#[trigger] rows[k]).id@ == x
}

proof fn lemma_contains_cons(e: TocRow, s: Seq<TocRow>)
    ensures
        forall|x: TocRow| #[trigger] (seq![e] + s).contains(x) <==> (x == e || s.contains(x)),
{
    let c = seq![e] + s;
    assert forall|x: TocRow| #[trigger] c.contains(x) <==> (x == e || s.contains(x)) by {
        if c.contains(x) {
            let k = choose|k: int| 0 <= k < c.len() && c[k] == x;
            if k > 0 {
                assert(s[k - 1] == x);
            }
        }
        if x == e {
            assert(c[0] == x);
        }
        if s.contains(x) {
            let k = choose|k: int| 0 <= k < s.len() && s[k] == x;
            assert(c[k + 1] == x);
        }
    }
}

proof fn lemma_contains_concat(a: Seq<TocRow>, b: Seq<TocRow>)
    ensures
        forall|x: TocRow| #[trigger] (a + b).contains(x) <==> (a.contains(x) || b.contains(x)),
{
    let c = a + b;
    assert forall|x: TocRow| #[trigger] c.contains(x) <==> (a.contains(x) || b.contains(x)) by {
        if c.contains(x) {
            let k = choose|k: int| 0 <= k < c.len() && c[k] == x;
            if k < a.len() {
                assert(a[k] == x);
            } else {
                assert(b[k - a.len()] == x);
            }
        }
        if a.contains(x) {
            let k = choose|k: int| 0 <= k < a.len() && a[k] == x;
            assert(c[k] == x);
        }
        if b.contains(x) {
            let k = choose|k: int| 0 <= k < b.len() && b[k] == x;
            assert(c[a.len() + k] == x);
        }
    }
}

/// A pass places exactly the rows it takes.
proof fn lemma_sort_pass_placed(rem: Seq<TocRow>, placed: Set<Seq<char>>, blocked: Set<Seq<char>>)
    ensures
        forall|x: Seq<char>| #[trigger] sort_pass(rem, placed, blocked).2.contains(x) <==> (placed.contains(x) || has_row_id(sort_pass(rem, placed, blocked).0, x)),
    decreases rem.len(),
{
    reveal(sort_pass);
    let (t, l, p2) = sort_pass(rem, placed, blocked);
    if rem.len() > 0 {
        let e = rem[0];
        let rest = rem.drop_first();
        if can_place(e, placed, blocked) {
            let pl = placed.insert(e.id@);
            lemma_sort_pass_placed(rest, pl, blocked);
            let t1 = sort_pass(rest, pl, blocked).0;
            assert forall|x: Seq<char>| #[trigger] p2.contains(x) <==> (placed.contains(x) || has_row_id(t, x)) by {
                if has_row_id(t1, x) {
                    let k = choose|k: int| 0 <= k < t1.len() && (#[trigger] t1[k]).id@ == x;
                    assert(t[k + 1] == t1[k]);
                }
                if has_row_id(t, x) {
                    let k = choose|k: int| 0 <= k < t.len() && (#[trigger] t[k]).id@ == x;
                    if k > 0 {
                        assert(t1[k - 1] == t[k]);
                    }
                }
                if x == e.id@ {
                    assert(t[0] == e);
                }
            }
        } else {
            lemma_sort_pass_placed(rest, placed, block(e, blocked));
            let r1 = sort_pass(rest, placed, block(e, blocked));
            assert(t == r1.0 && p2 == r1.2);
        }
    } else {
        assert forall|x: Seq<char>| #[trigger] p2.contains(x) <==> (placed.contains(x) || has_row_id(t, x)) by {
            assert(t.len() == 0);
        }
    }
}

/// Within a pass, each row taken has its parent placed before the pass or
/// taken earlier in it.
proof fn lemma_sort_pass_parents(rem: Seq<TocRow>, placed: Set<Seq<char>>, blocked: Set<Seq<char>>)
    ensures
        ({
            let t = sort_pass(rem, placed, blocked).0;
            forall|k: int| 0 <= k < t.len() ==> match (#[trigger] t[k]).parent_id {
                None => true,
                Some(p) => placed.contains(p@) || exists|j: int| 0 <= j < k && (#[trigger] t[j]).id@ == p@,
            }
        }),
    decreases rem.len(),
{
    reveal(sort_pass);
    let (t, l, p2) = sort_pass(rem, placed, blocked);
    if rem.len() > 0 {
        let e = rem[0];
        let rest = rem.drop_first();
        if can_place(e, placed, blocked) {
            let pl = placed.insert(e.id@);
            lemma_sort_pass_parents(rest, pl, blocked);
            let t1 = sort_pass(rest, pl, blocked).0;
            assert forall|k: int| 0 <= k < t.len() implies match (#[trigger] t[k]).parent_id {
                None => true,
                Some(p) => placed.contains(p@) || exists|j: int| 0 <= j < k && (#[trigger] t[j]).id@ == p@,
            } by {
                if k > 0 {
                    assert(t[k] == t1[k - 1]);
                    if let Some(p) = t[k].parent_id {
                        if !placed.contains(p@) {
                            if p@ == e.id@ {
                                assert(t[0].id@ == p@);
                            } else {
                                let j = choose|j: int| 0 <= j < k - 1 && (#[trigger] t1[j]).id@ == p@;
                                assert(t[j + 1] == t1[j]);
                            }
                        }
                    }
                }
            }
        } else {
            lemma_sort_pass_parents(rest, placed, block(e, blocked));
        }
    }
}

/// A pass splits the waiting rows between taken and left and takes every
/// root row.
proof fn lemma_sort_pass_split(rem: Seq<TocRow>, placed: Set<Seq<char>>, blocked: Set<Seq<char>>)
    ensures
        ({
            let (t, l, p2) = sort_pass(rem, placed, blocked);
            &&& forall|e: TocRow| #[trigger] rem.contains(e) <==> (t.contains(e) || l.contains(e))
            &&& forall|e: TocRow| #[trigger] rem.contains(e) && e.parent_id is None ==> t.contains(e)
        }),
    decreases rem.len(),
{
    reveal(sort_pass);
    let (t, l, p2) = sort_pass(rem, placed, blocked);
    if rem.len() > 0 {
        let e = rem[0];
        let rest = rem.drop_first();
        assert(rem == seq![e] + rest);
        lemma_contains_cons(e, rest);
        if can_place(e, placed, blocked) {
            let pl = placed.insert(e.id@);
            lemma_sort_pass_split(rest, pl, blocked);
            let (t1, l1, p21) = sort_pass(rest, pl, blocked);
            lemma_contains_cons(e, t1);
        } else {
            let b2 = block(e, blocked);
            lemma_sort_pass_split(rest, placed, b2);
            let (t1, l1, p21) = sort_pass(rest, placed, b2);
            lemma_contains_cons(e, l1);
        }
    }
}

/// A pass that takes nothing, when no blocked group's parent is placed,
/// leaves every row waiting, and no waiting row has its parent placed.
proof fn lemma_sort_pass_stuck(rem: Seq<TocRow>, placed: Set<Seq<char>>, blocked: Set<Seq<char>>)
    requires
        sort_pass(rem, placed, blocked).0.len() == 0,
        forall|x: Seq<char>| #[trigger] blocked.contains(x) ==> !placed.contains(x),
    ensures
        forall|k: int| 0 <= k < rem.len() ==> (#[trigger] rem[k]).parent_id is Some
            && !placed.contains(rem[k].parent_id.unwrap()@),
    decreases rem.len(),
{
    reveal(sort_pass);
    if rem.len() > 0 {
        let e = rem[0];
        let rest = rem.drop_first();
        assert(!can_place(e, placed, blocked));
        let p = e.parent_id.unwrap()@;
        assert(!placed.contains(p));
        let b2 = block(e, blocked);
        assert forall|x: Seq<char>| #[trigger] b2.contains(x) implies !placed.contains(x) by {
            if x != p {
                assert(blocked.contains(x));
            }
        }
        lemma_sort_pass_stuck(rest, placed, b2);
        assert forall|k: int| 0 <= k < rem.len() implies (#[trigger] rem[k]).parent_id is Some
            && !placed.contains(rem[k].parent_id.unwrap()@) by {
            if k > 0 {
                assert(rem[k] == rest[k - 1]);
            }
        }
    }
}

/// Filtering a sequence that starts with `e`.
proof fn lemma_filter_cons(e: TocRow, rest: Seq<TocRow>, f: spec_fn(TocRow) -> bool)
    ensures
        (seq![e] + rest).filter(f) == (if f(e) { seq![e] + rest.filter(f) } else { rest.filter(f) }),
{
    reveal_with_fuel(Seq::filter, 2);
    Seq::filter_distributes_over_add(seq![e], rest, f);
    let one = seq![e];
    assert(one.len() == 1);
    assert(one.drop_last() =~= Seq::<TocRow>::empty());
    assert(one.last() == e);
    if f(e) {
        assert(one.filter(f) =~= seq![e]);
    } else {
        assert(one.filter(f) =~= Seq::<TocRow>::empty());
    }
}

/// A pass keeps each sibling group in order: of every group, the rows it
/// takes come before the rows it leaves, and a group blocked before the
/// pass reaches it has none of its rows taken.
proof fn lemma_sort_pass_groups(rem: Seq<TocRow>, placed: Set<Seq<char>>, blocked: Set<Seq<char>>)
    ensures
        ({
            let (t, l, p2) = sort_pass(rem, placed, blocked);
            forall|q: Option<Seq<char>>| #![trigger in_group(q)]
                rem.filter(in_group(q)) == t.filter(in_group(q)) + l.filter(in_group(q))
                && ((q matches Some(p) && blocked.contains(p)) ==> t.filter(in_group(q)).len() == 0)
        }),
    decreases rem.len(),
{
    reveal(sort_pass);
    let (t, l, p2) = sort_pass(rem, placed, blocked);
    if rem.len() == 0 {
        assert forall|q: Option<Seq<char>>| #![trigger in_group(q)]
            rem.filter(in_group(q)) == t.filter(in_group(q)) + l.filter(in_group(q))
            && ((q matches Some(p) && blocked.contains(p)) ==> t.filter(in_group(q)).len() == 0) by {
            assert(t.filter(in_group(q)) =~= Seq::<TocRow>::empty());
            assert(rem.filter(in_group(q)) =~= Seq::<TocRow>::empty());
            assert(l.filter(in_group(q)) =~= Seq::<TocRow>::empty());
        }
    } else {
        let e = rem[0];
        let rest = rem.drop_first();
        assert(rem =~= seq![e] + rest);
        if can_place(e, placed, blocked) {
            let pl = placed.insert(e.id@);
            lemma_sort_pass_groups(rest, pl, blocked);
            let (t1, l1, p21) = sort_pass(rest, pl, blocked);
            assert forall|q: Option<Seq<char>>| #![trigger in_group(q)]
                rem.filter(in_group(q)) == t.filter(in_group(q)) + l.filter(in_group(q))
                && ((q matches Some(p) && blocked.contains(p)) ==> t.filter(in_group(q)).len() == 0) by {
                let g = in_group(q);
                lemma_filter_cons(e, rest, g);
                lemma_filter_cons(e, t1, g);
                assert(t == seq![e] + t1);
                assert(l == l1);
                if g(e) {
                    assert(seq![e] + rest.filter(g) == seq![e] + (t1.filter(g) + l1.filter(g)));
                    assert(seq![e] + (t1.filter(g) + l1.filter(g)) =~= (seq![e] + t1.filter(g)) + l1.filter(g));
                }
            }
        } else {
            let b2 = block(e, blocked);
            lemma_sort_pass_groups(rest, placed, b2);
            let (t1, l1, p21) = sort_pass(rest, placed, b2);
            assert forall|q: Option<Seq<char>>| #![trigger in_group(q)]
                rem.filter(in_group(q)) == t.filter(in_group(q)) + l.filter(in_group(q))
                && ((q matches Some(p) && blocked.contains(p)) ==> t.filter(in_group(q)).len() == 0) by {
                let g = in_group(q);
                lemma_filter_cons(e, rest, g);
                lemma_filter_cons(e, l1, g);
                assert(t == t1);
                assert(l == seq![e] + l1);
                if g(e) {
                    let p = e.parent_id.unwrap()@;
                    assert(q == Some(p));
                    assert(b2.contains(p));
                    assert(t1.filter(g).len() == 0);
                    assert(t1.filter(g) =~= Seq::<TocRow>::empty());
                    assert(rest.filter(g) =~= l1.filter(g));
                    assert(t.filter(g) + l.filter(g) =~= seq![e] + l1.filter(g));
                } else {
                    assert(rest.filter(g) == t1.filter(g) + l1.filter(g));
                }
            }
        }
    }
}

/// `a + x` is a prefix of `a + y` when `x` is a prefix of `y`.
proof fn lemma_prefix_extend(a: Seq<TocRow>, x: Seq<TocRow>, y: Seq<TocRow>)
    requires
        x.is_prefix_of(y),
    ensures
        (a + x).is_prefix_of(a + y),
{
    assert((a + x) =~= (a + y).subrange(0, (a + x).len() as int)) by {
        assert forall|i: int| 0 <= i < (a + x).len() implies (a + x)[i] == (a + y).subrange(0, (a + x).len() as int)[i] by {
            if i >= a.len() {
                assert(x[i - a.len()] == y.subrange(0, x.len() as int)[i - a.len()]);
            }
        }
    }
}

/// The sort keeps each sibling group in input order: of every group, the
/// rows it keeps are a prefix of that group's rows in input order.
proof fn lemma_topological_sort_groups(rem: Seq<TocRow>, placed: Set<Seq<char>>)
    ensures
        forall|q: Option<Seq<char>>| #[trigger] spec_topological_sort(rem, placed).filter(in_group(q)).is_prefix_of(rem.filter(in_group(q))),
    decreases rem.len(),
{
    let out = spec_topological_sort(rem, placed);
    if rem.len() == 0 || sort_pass(rem, placed, Set::empty()).1.len() == rem.len() {
        assert forall|q: Option<Seq<char>>| #[trigger] spec_topological_sort(rem, placed).filter(in_group(q)).is_prefix_of(rem.filter(in_group(q))) by {
            assert(out =~= Seq::<TocRow>::empty());
            assert(out.filter(in_group(q)) =~= Seq::<TocRow>::empty());
        }
    } else {
        let (t, l, p2) = sort_pass(rem, placed, Set::empty());
        lemma_sort_pass_len(rem, placed, Set::empty());
        lemma_sort_pass_groups(rem, placed, Set::empty());
        lemma_topological_sort_groups(l, p2);
        let rest_out = spec_topological_sort(l, p2);
        assert(out == t + rest_out);
        assert forall|q: Option<Seq<char>>| #[trigger] spec_topological_sort(rem, placed).filter(in_group(q)).is_prefix_of(rem.filter(in_group(q))) by {
            let g = in_group(q);
            let _ = sort_pass(rem, placed, Set::empty());
            let _ = spec_topological_sort(l, p2).filter(g);
            Seq::filter_distributes_over_add(t, rest_out, g);
            lemma_prefix_extend(t.filter(g), rest_out.filter(g), l.filter(g));
        }
    }
}

/// A pass over rows that each follow their parent (or whose parent is
/// already placed) takes every row, in order.
proof fn lemma_sort_pass_takes_all(rem: Seq<TocRow>, placed: Set<Seq<char>>)
    requires
        forall|k: int| 0 <= k < rem.len() && (#[trigger] rem[k]).parent_id is Some ==>
            placed.contains(rem[k].parent_id.unwrap()@)
            || exists|j: int| 0 <= j < k && (#[trigger] rem[j]).id@ == rem[k].parent_id.unwrap()@,
    ensures
        sort_pass(rem, placed, Set::empty()).0 == rem,
        sort_pass(rem, placed, Set::empty()).1.len() == 0,
    decreases rem.len(),
{
    reveal(sort_pass);
    if rem.len() > 0 {
        let e = rem[0];
        let rest = rem.drop_first();
        let pl = placed.insert(e.id@);
        assert(can_place(e, placed, Set::empty()));
        assert forall|k: int| 0 <= k < rest.len() && (#[trigger] rest[k]).parent_id is Some implies
            pl.contains(rest[k].parent_id.unwrap()@)
            || exists|j: int| 0 <= j < k && (#[trigger] rest[j]).id@ == rest[k].parent_id.unwrap()@ by {
            assert(rest[k] == rem[k + 1]);
            let p = rest[k].parent_id.unwrap()@;
            if !placed.contains(p) {
                let j = choose|j: int| 0 <= j < k + 1 && (#[trigger] rem[j]).id@ == p;
                if j > 0 {
                    assert(rest[j - 1] == rem[j]);
                }
            }
        }
        lemma_sort_pass_takes_all(rest, pl);
        assert(seq![e] + rest =~= rem);
    }
}

/// The sorted rows: parents first, input rows only, every root kept, and
/// every row whose parent is placed or sorted is kept.
#[verifier::spinoff_prover]
proof fn lemma_topological_sort_facts(rem: Seq<TocRow>, placed: Set<Seq<char>>)
    ensures
        ({
            let out = spec_topological_sort(rem, placed);
            &&& forall|k: int| 0 <= k < out.len() ==> match (#[trigger] out[k]).parent_id {
                None => true,
                Some(p) => placed.contains(p@) || exists|j: int| 0 <= j < k && (#[trigger] out[j]).id@ == p@,
            }
            &&& forall|e: TocRow| #[trigger] out.contains(e) ==> rem.contains(e)
            &&& forall|e: TocRow| #[trigger] rem.contains(e) && e.parent_id is None ==> out.contains(e)
            &&& forall|e: TocRow| #[trigger] rem.contains(e) && e.parent_id is Some
                && (placed.contains(e.parent_id.unwrap()@) || has_row_id(out, e.parent_id.unwrap()@)) ==> out.contains(e)
        }),
    decreases rem.len(),
{
    let out = spec_topological_sort(rem, placed);
    if rem.len() > 0 {
        let (t, l, p2) = sort_pass(rem, placed, Set::empty());
        lemma_sort_pass_split(rem, placed, Set::empty());
        lemma_sort_pass_len(rem, placed, Set::empty());
        if l.len() == rem.len() {
            assert(t.len() == 0);
            lemma_sort_pass_stuck(rem, placed, Set::empty());
            assert forall|e: TocRow| #[trigger] rem.contains(e) && e.parent_id is Some
                && (placed.contains(e.parent_id.unwrap()@) || has_row_id(out, e.parent_id.unwrap()@)) implies out.contains(e) by {
                let k = choose|k: int| 0 <= k < rem.len() && rem[k] == e;
                assert(rem[k].parent_id is Some && !placed.contains(rem[k].parent_id.unwrap()@));
                assert(out =~= Seq::<TocRow>::empty());
            }
        } else {
            lemma_sort_pass_placed(rem, placed, Set::empty());
            lemma_sort_pass_parents(rem, placed, Set::empty());
            let rest_out = spec_topological_sort(l, p2);
            lemma_topological_sort_facts(l, p2);
            assert(out == t + rest_out);
            lemma_contains_concat(t, rest_out);
            assert forall|k: int| 0 <= k < out.len() implies match (#[trigger] out[k]).parent_id {
                None => true,
                Some(p) => placed.contains(p@) || exists|j: int| 0 <= j < k && (#[trigger] out[j]).id@ == p@,
            } by {
                if k < t.len() {
                    assert(out[k] == t[k]);
                    if let Some(p) = t[k].parent_id {
                        if !placed.contains(p@) {
                            let j = choose|j: int| 0 <= j < k && (#[trigger] t[j]).id@ == p@;
                            assert(out[j] == t[j]);
                        }
                    }
                } else {
                    let k2 = k - t.len();
                    assert(out[k] == rest_out[k2]);
                    if let Some(p) = rest_out[k2].parent_id {
                        if !placed.contains(p@) {
                            if p2.contains(p@) {
                                let j = choose|j: int| 0 <= j < t.len() && (#[trigger] t[j]).id@ == p@;
                                assert(out[j] == t[j]);
                            } else {
                                let j = choose|j: int| 0 <= j < k2 && (#[trigger] rest_out[j]).id@ == p@;
                                assert(out[t.len() + j] == rest_out[j]);
                            }
                        }
                    }
                }
            }
            assert forall|e: TocRow| #[trigger] rem.contains(e) && e.parent_id is Some
                && (placed.contains(e.parent_id.unwrap()@) || has_row_id(out, e.parent_id.unwrap()@)) implies out.contains(e) by {
                let p = e.parent_id.unwrap()@;
                if !t.contains(e) {
                    assert(l.contains(e));
                    if !placed.contains(p) {
                        let k = choose|k: int| 0 <= k < out.len() && (#[trigger] out[k]).id@ == p;
                        if k < t.len() {
                            assert(t[k] == out[k]);
                            assert(has_row_id(t, p));
                        } else {
                            assert(rest_out[k - t.len()] == out[k]);
                            assert(has_row_id(rest_out, p));
                        }
                    }
                    assert(rest_out.contains(e));
                }
            }
        }
    }
}

/// Parents come first: in the sorted rows, a row naming a parent row
/// follows a row with that id.
pub proof fn law_topological_sort_parents_first(entries: Seq<TocRow>)
    ensures
        ({
            let out = spec_topological_sort(entries, Set::empty());
            forall|k: int| 0 <= k < out.len() && (#[trigger] out[k]).parent_id is Some ==>
                exists|j: int| 0 <= j < k && (#[trigger] out[j]).id@ == out[k].parent_id.unwrap()@
        }),
{
    lemma_topological_sort_facts(entries, Set::empty());
}

/// Sorting only reorders and drops: every sorted row is an input row.
pub proof fn law_topological_sort_only_input_rows(entries: Seq<TocRow>)
    ensures
        forall|e: TocRow| #[trigger] spec_topological_sort(entries, Set::empty()).contains(e) ==> entries.contains(e),
        spec_topological_sort(entries, Set::empty()).len() <= entries.len(),
{
    lemma_topological_sort_facts(entries, Set::empty());
    lemma_topological_sort_len(entries, Set::empty());
}

/// Only rows with an unreachable parent are dropped: every root row is
/// kept, and every row whose parent row is kept is kept.
pub proof fn law_topological_sort_keeps_reachable(entries: Seq<TocRow>)
    ensures
        ({
            let out = spec_topological_sort(entries, Set::empty());
            &&& forall|e: TocRow| #[trigger] entries.contains(e) && e.parent_id is None ==> out.contains(e)
            &&& forall|e: TocRow| #[trigger] entries.contains(e) && e.parent_id is Some && has_row_id(out, e.parent_id.unwrap()@)
                ==> out.contains(e)
        }),
{
    lemma_topological_sort_facts(entries, Set::empty());
}

/// What the sort's result shows of its order: parents first, each sibling
/// group a prefix of its input order, and well-ordered input unchanged.
proof fn lemma_topological_sort_order(input: Seq<TocRow>, out: Seq<TocRow>)
    requires
        out == spec_topological_sort(input, Set::empty()),
    ensures
        well_ordered(out),
        forall|q: Option<Seq<char>>| #[trigger] out.filter(in_group(q)).is_prefix_of(input.filter(in_group(q))),
        well_ordered(input) ==> out == input,
{
    law_topological_sort_parents_first(input);
    law_topological_sort_keeps_sibling_order(input);
    law_topological_sort_well_ordered_unchanged(input);
}

/// Siblings keep their input order: of every parent group, the rows the
/// sort keeps are a prefix of that group's rows in input order (all of
/// them, or none when their parent is unreachable).
pub proof fn law_topological_sort_keeps_sibling_order(entries: Seq<TocRow>)
    ensures
        forall|q: Option<Seq<char>>| #[trigger] spec_topological_sort(entries, Set::empty()).filter(in_group(q)).is_prefix_of(entries.filter(in_group(q))),
{
    lemma_topological_sort_groups(entries, Set::empty());
}

/// Rows in which every row already follows its parent come back
/// unchanged: nothing is moved or dropped.
pub proof fn law_topological_sort_well_ordered_unchanged(entries: Seq<TocRow>)
    ensures
        well_ordered(entries) ==> spec_topological_sort(entries, Set::empty()) == entries,
{
    if well_ordered(entries) && entries.len() > 0 {
        lemma_sort_pass_takes_all(entries, Set::empty());
        let r = sort_pass(entries, Set::empty(), Set::empty());
        assert(spec_topological_sort(r.1, r.2) =~= Seq::<TocRow>::empty());
        assert(r.0 + spec_topological_sort(r.1, r.2) =~= entries);
    }
}

/// Sorting twice is sorting once.
pub proof fn law_topological_sort_idempotent(entries: Seq<TocRow>)
    ensures
        spec_topological_sort(spec_topological_sort(entries, Set::empty()), Set::empty()) == spec_topological_sort(entries, Set::empty()),
{
    law_topological_sort_parents_first(entries);
    law_topological_sort_well_ordered_unchanged(spec_topological_sort(entries, Set::empty()));
}


proof fn lemma_snapshot_rows_kept(nodes: Seq<TocNode>, parent: Option<TreeId>, i: int, pos: int, known: Set<PageId>)
    ensures
        forall|k: int| 0 <= k < snapshot_rows(nodes, parent, i, pos, known).len() ==> {
            let s = #[trigger] snapshot_rows(nodes, parent, i, pos, known)[k];
            &&& (s.page_id is Some || s.folder_title is Some)
            &&& (s.page_id matches Some(p) ==> known.contains(p))
        },
    decreases nodes.len() - i,
{
    if 0 <= i < nodes.len() {
        lemma_snapshot_rows_kept(nodes, parent, i + 1, pos, known);
        if nodes[i].parent == parent && kept_in_snapshot(nodes[i].entry, known) {
            let a = seq![shape_of(nodes[i], parent, pos)];
            let b = snapshot_rows(nodes, Some(nodes[i].tree_id), i + 1, 0, known);
            let c = snapshot_rows(nodes, parent, i + 1, pos + 1, known);
            lemma_snapshot_rows_kept(nodes, Some(nodes[i].tree_id), i + 1, 0, known);
            lemma_snapshot_rows_kept(nodes, parent, i + 1, pos + 1, known);
            let all = snapshot_rows(nodes, parent, i, pos, known);
            assert(all == a + b + c);
            assert forall|k: int| 0 <= k < all.len() implies {
                let s = #[trigger] all[k];
                &&& (s.page_id is Some || s.folder_title is Some)
                &&& (s.page_id matches Some(p) ==> known.contains(p))
            } by {
                if k == 0 {
                } else if k < 1 + b.len() {
                    assert(all[k] == b[k - 1]);
                } else {
                    assert(all[k] == c[k - 1 - b.len()]);
                }
            }
        }
    }
}

/// A snapshot persists no suggestion and no dangling page: every row is a
/// folder row or the row of a known page.
pub proof fn law_snapshot_skips_suggestions_and_dangling_pages(nodes: Seq<TocNode>, known: Set<PageId>)
    ensures
        forall|k: int| 0 <= k < snapshot_rows(nodes, None, 0, 0, known).len() ==> {
            let s = #[trigger] snapshot_rows(nodes, None, 0, 0, known)[k];
            &&& (s.page_id is Some || s.folder_title is Some)
            &&& (s.page_id matches Some(p) ==> known.contains(p))
        },
{
    lemma_snapshot_rows_kept(nodes, None, 0, 0, known);
}

/// Row ids are stable: when every node a snapshot persists already has a
/// row id (as after a restore, which records one for every node), the
/// snapshot reuses them all and records nothing new.
pub proof fn law_snapshot_reuses_row_ids(m0: Map<TreeId, Seq<char>>, m1: Map<TreeId, Seq<char>>, shapes: Seq<RowShape>)
    requires
        map_extends(m1, m0),
        keys_from(m1, m0, shapes),
        forall|k: int| 0 <= k < shapes.len() ==> m0.contains_key(#[trigger] shapes[k].tree_id),
    ensures
        m1 == m0,
{
    assert forall|t: TreeId| #[trigger] m1.contains_key(t) implies m0.contains_key(t) by {
        if !m0.contains_key(t) {
            let k = choose|k: int| 0 <= k < shapes.len() && (#[trigger] shapes[k]).tree_id == t;
            assert(m0.contains_key(shapes[k].tree_id));
        }
    }
    assert(m1 =~= m0);
}

/// Every shape a snapshot produces is the shape of a node of the tree.
proof fn lemma_snapshot_rows_held(nodes: Seq<TocNode>, parent: Option<TreeId>, i: int, pos: int, known: Set<PageId>)
    ensures
        forall|k: int| 0 <= k < snapshot_rows(nodes, parent, i, pos, known).len()
            ==> holds(nodes, (#[trigger] snapshot_rows(nodes, parent, i, pos, known)[k]).tree_id),
    decreases nodes.len() - i,
{
    if 0 <= i < nodes.len() {
        lemma_snapshot_rows_held(nodes, parent, i + 1, pos, known);
        if nodes[i].parent == parent && kept_in_snapshot(nodes[i].entry, known) {
            let a = seq![shape_of(nodes[i], parent, pos)];
            let b = snapshot_rows(nodes, Some(nodes[i].tree_id), i + 1, 0, known);
            let c = snapshot_rows(nodes, parent, i + 1, pos + 1, known);
            lemma_snapshot_rows_held(nodes, Some(nodes[i].tree_id), i + 1, 0, known);
            lemma_snapshot_rows_held(nodes, parent, i + 1, pos + 1, known);
            let all = snapshot_rows(nodes, parent, i, pos, known);
            assert(all == a + b + c);
            assert forall|k: int| 0 <= k < all.len() implies holds(nodes, (#[trigger] all[k]).tree_id) by {
                if k == 0 {
                    assert(nodes[i].tree_id == all[0].tree_id);
                } else if k < 1 + b.len() {
                    assert(all[k] == b[k - 1]);
                } else {
                    assert(all[k] == c[k - 1 - b.len()]);
                }
            }
        }
    }
}

/// In a snapshot, each shape's parent is the parent the snapshot started
/// under or the node of an earlier shape (preorder: parents first).
proof fn lemma_snapshot_rows_parents_first(nodes: Seq<TocNode>, parent: Option<TreeId>, i: int, pos: int, known: Set<PageId>)
    ensures
        ({
            let sh = snapshot_rows(nodes, parent, i, pos, known);
            forall|k: int| 0 <= k < sh.len() ==> (#[trigger] sh[k]).parent == parent
                || exists|j: int| 0 <= j < k && Some((#[trigger] sh[j]).tree_id) == sh[k].parent
        }),
    decreases nodes.len() - i,
{
    if 0 <= i < nodes.len() {
        lemma_snapshot_rows_parents_first(nodes, parent, i + 1, pos, known);
        if nodes[i].parent == parent && kept_in_snapshot(nodes[i].entry, known) {
            let a = seq![shape_of(nodes[i], parent, pos)];
            let t = Some(nodes[i].tree_id);
            let b = snapshot_rows(nodes, t, i + 1, 0, known);
            let c = snapshot_rows(nodes, parent, i + 1, pos + 1, known);
            lemma_snapshot_rows_parents_first(nodes, t, i + 1, 0, known);
            lemma_snapshot_rows_parents_first(nodes, parent, i + 1, pos + 1, known);
            let all = snapshot_rows(nodes, parent, i, pos, known);
            assert(all == a + b + c);
            assert forall|k: int| 0 <= k < all.len() implies (#[trigger] all[k]).parent == parent
                || exists|j: int| 0 <= j < k && Some((#[trigger] all[j]).tree_id) == all[k].parent by {
                if k == 0 {
                } else if k < 1 + b.len() {
                    assert(all[k] == b[k - 1]);
                    if b[k - 1].parent == t {
                        assert(Some(all[0].tree_id) == all[k].parent);
                    } else {
                        let j = choose|j: int| 0 <= j < k - 1 && Some((#[trigger] b[j]).tree_id) == b[k - 1].parent;
                        assert(all[j + 1] == b[j]);
                    }
                } else {
                    let k2 = k - 1 - b.len();
                    assert(all[k] == c[k2]);
                    if c[k2].parent != parent {
                        let j = choose|j: int| 0 <= j < k2 && Some((#[trigger] c[j]).tree_id) == c[k2].parent;
                        assert(all[1 + b.len() + j] == c[j]);
                    }
                }
            }
        }
    }
}

/// Rows carrying shapes that follow their parents follow their parents.
proof fn lemma_rows_follow_shapes(sh: Seq<RowShape>, rows: Seq<TocRow>, m: Map<TreeId, Seq<char>>)
    requires
        rows.len() == sh.len(),
        forall|k: int| 0 <= k < rows.len() ==> row_matches(#[trigger] rows[k], sh[k], m),
        forall|k: int| 0 <= k < sh.len() ==> (#[trigger] sh[k]).parent is None
            || exists|j: int| 0 <= j < k && Some((#[trigger] sh[j]).tree_id) == sh[k].parent,
    ensures
        well_ordered(rows),
{
    assert forall|k: int| 0 <= k < rows.len() && (#[trigger] rows[k]).parent_id is Some implies
        exists|j: int| 0 <= j < k && (#[trigger] rows[j]).id@ == rows[k].parent_id.unwrap()@ by {
        assert(row_matches(rows[k], sh[k], m));
        assert(sh[k].parent is Some);
        let p = sh[k].parent.unwrap();
        let j = choose|j: int| 0 <= j < k && Some((#[trigger] sh[j]).tree_id) == sh[k].parent;
        assert(row_matches(rows[j], sh[j], m));
        assert(rows[j].id@ == m[p]);
    }
}

/// Snapshot rows already follow their parents, so restoring them adds them
/// in snapshot order: the sort moves and drops nothing.
pub proof fn law_snapshot_rows_restore_in_order(nodes: Seq<TocNode>, known: Set<PageId>, m: Map<TreeId, Seq<char>>, rows: Seq<TocRow>)
    requires
        rows.len() == snapshot_rows(nodes, None, 0, 0, known).len(),
        forall|k: int| 0 <= k < rows.len() ==> row_matches(#[trigger] rows[k], snapshot_rows(nodes, None, 0, 0, known)[k], m),
    ensures
        well_ordered(rows),
        spec_topological_sort(rows, Set::empty()) == rows,
{
    let sh = snapshot_rows(nodes, None, 0, 0, known);
    lemma_snapshot_rows_parents_first(nodes, None, 0, 0, known);
    lemma_rows_follow_shapes(sh, rows, m);
    law_topological_sort_well_ordered_unchanged(rows);
}

/// The first `n` rows restored one node each, in order: node `k` carries
/// row `k`'s id and entry, sits at the root when its shape does and under
/// node `j` when its shape's parent is shape `j`'s node; each row id
/// resolves to its node, and the pages referenced are those of the rows.
#[verifier::opaque]
pub open spec fn restored_rows(st: RestoreState, rows: Seq<TocRow>, sh: Seq<RowShape>, pages: Seq<PageRecord>, n: int) -> bool {
    &&& st.nodes.len() == n
    &&& forall|k: int| 0 <= k < n ==> (#[trigger] st.nodes[k]).row_id == rows[k].id@
        && Some(st.nodes[k].entry) == spec_row_to_entry(rows[k], pages)
        && (sh[k].parent is None ==> st.nodes[k].parent is None)
    &&& forall|k: int, j: int| 0 <= j < k < n && sh[k].parent == Some((#[trigger] sh[j]).tree_id)
        ==> (#[trigger] st.nodes[k]).parent == Some(j)
    &&& forall|x: Seq<char>| #[trigger] st.row_pos.contains_key(x) <==> exists|k: int| 0 <= k < n && rows[k].id@ == x
    &&& forall|k: int| 0 <= k < n ==> st.row_pos[(#[trigger] rows[k]).id@] == k
    &&& forall|p: PageId| #[trigger] st.referenced.contains(p) <==> exists|k: int| 0 <= k < n && rows[k].page_id == Some(p)
}

/// Restoring the rows of a snapshot, one by one, keeps each where the
/// snapshot put it.
proof fn lemma_restore_snapshot_rows(rows: Seq<TocRow>, sh: Seq<RowShape>, m: Map<TreeId, Seq<char>>, pages: Seq<PageRecord>, n: int)
    requires
        0 <= n <= rows.len(),
        rows.len() == sh.len(),
        forall|k: int| 0 <= k < rows.len() ==> row_matches(#[trigger] rows[k], sh[k], m),
        forall|i: int, j: int| 0 <= i < j < rows.len() ==> (#[trigger] rows[i]).id@ != (#[trigger] rows[j]).id@,
        forall|k: int| 0 <= k < sh.len() ==> (#[trigger] sh[k]).parent is None
            || exists|j: int| 0 <= j < k && Some((#[trigger] sh[j]).tree_id) == sh[k].parent,
        forall|k: int| 0 <= k < rows.len() && (#[trigger] rows[k]).page_id is Some ==> page_lookup(pages, rows[k].page_id.unwrap()) is Some,
    ensures
        restored_rows(restore_prefix(rows, pages, n), rows, sh, pages, n),
    decreases n,
{
    reveal(restored_rows);
    if n == 0 {
        let st = restore_prefix(rows, pages, 0);
        assert(st.nodes =~= Seq::<RestoredNode>::empty());
    } else {
        lemma_restore_snapshot_rows(rows, sh, m, pages, n - 1);
        let st0 = restore_prefix(rows, pages, n - 1);
        let st = restore_prefix(rows, pages, n);
        let k = n - 1;
        let row = rows[k];
        assert(row_matches(row, sh[k], m));
        assert(spec_row_to_entry(row, pages) is Some);
        let parent = match row.parent_id {
            Some(pid) => if st0.row_pos.contains_key(pid@) { Some(st0.row_pos[pid@]) } else { None },
            None => None,
        };
        assert(st.nodes == st0.nodes.push(RestoredNode { parent, entry: spec_row_to_entry(row, pages).unwrap(), row_id: row.id@ }));
        assert forall|j: int| 0 <= j < k && sh[k].parent == Some((#[trigger] sh[j]).tree_id) implies parent == Some(j) by {
            let t = sh[j].tree_id;
            assert(row_matches(rows[j], sh[j], m));
            assert(rows[j].id@ == m[t]);
            assert(row.parent_id.unwrap()@ == m[t]);
            assert(st0.row_pos[rows[j].id@] == j);
        }
        assert forall|kk: int, j: int| 0 <= j < kk < n && sh[kk].parent == Some((#[trigger] sh[j]).tree_id)
            implies (#[trigger] st.nodes[kk]).parent == Some(j) by {
            if kk < k {
                assert(st.nodes[kk] == st0.nodes[kk]);
            }
        }
        assert forall|kk: int| 0 <= kk < n implies (#[trigger] st.nodes[kk]).row_id == rows[kk].id@
            && Some(st.nodes[kk].entry) == spec_row_to_entry(rows[kk], pages)
            && (sh[kk].parent is None ==> st.nodes[kk].parent is None) by {
            if kk < k {
                assert(st.nodes[kk] == st0.nodes[kk]);
            }
        }
        assert forall|x: Seq<char>| #[trigger] st.row_pos.contains_key(x) <==> exists|kk: int| 0 <= kk < n && rows[kk].id@ == x by {
            if st0.row_pos.contains_key(x) {
                let kk = choose|kk: int| 0 <= kk < n - 1 && rows[kk].id@ == x;
                assert(rows[kk].id@ == x);
            }
            if exists|kk: int| 0 <= kk < n && rows[kk].id@ == x {
                let kk = choose|kk: int| 0 <= kk < n && rows[kk].id@ == x;
                if kk < k {
                    assert(st0.row_pos.contains_key(x));
                }
            }
        }
        assert forall|kk: int| 0 <= kk < n implies st.row_pos[(#[trigger] rows[kk]).id@] == kk by {
            if kk < k {
                assert(rows[kk].id@ != row.id@);
            }
        }
        assert forall|p: PageId| #[trigger] st.referenced.contains(p) <==> exists|kk: int| 0 <= kk < n && rows[kk].page_id == Some(p) by {
            if st0.referenced.contains(p) {
                let kk = choose|kk: int| 0 <= kk < n - 1 && rows[kk].page_id == Some(p);
                assert(rows[kk].page_id == Some(p));
            }
            if exists|kk: int| 0 <= kk < n && rows[kk].page_id == Some(p) {
                let kk = choose|kk: int| 0 <= kk < n && rows[kk].page_id == Some(p);
                if kk < k {
                    assert(st0.referenced.contains(p));
                }
            }
        }
    }
}

/// A snapshot restores to the tree it was taken of: restoring the rows of
/// a snapshot (distinct row ids, as the table's key makes them, and every
/// page they name still existing) gives one node per row, in snapshot
/// order, each under the node its parent was snapshotted as and carrying
/// the row's entry (the title of a page from the current pages, the
/// visibility from the row); and the restore is clean exactly when every
/// page of the campaign is in the snapshot.
#[verifier::spinoff_prover]
#[verifier::rlimit(60)]
pub proof fn law_snapshot_then_restore(nodes: Seq<TocNode>, known: Set<PageId>, m: Map<TreeId, Seq<char>>, rows: Seq<TocRow>, pages: Seq<PageRecord>)
    requires
        rows.len() == snapshot_rows(nodes, None, 0, 0, known).len(),
        forall|k: int| 0 <= k < rows.len() ==> row_matches(#[trigger] rows[k], snapshot_rows(nodes, None, 0, 0, known)[k], m),
        forall|i: int, j: int| 0 <= i < j < rows.len() ==> (#[trigger] rows[i]).id@ != (#[trigger] rows[j]).id@,
        forall|k: int| 0 <= k < rows.len() && (#[trigger] rows[k]).page_id is Some ==> page_lookup(pages, rows[k].page_id.unwrap()) is Some,
    ensures
        ({
            let sh = snapshot_rows(nodes, None, 0, 0, known);
            let sorted = spec_topological_sort(rows, Set::empty());
            let st = restore_prefix(sorted, pages, sorted.len() as int);
            &&& sorted == rows
            &&& restored_rows(st, rows, sh, pages, rows.len() as int)
            &&& (orphan_pages(pages, st.referenced).len() == 0 <==>
                forall|i: int| 0 <= i < pages.len() ==> exists|k: int| 0 <= k < rows.len() && rows[k].page_id == Some((#[trigger] pages[i]).page_id))
        }),
{
    let sh = snapshot_rows(nodes, None, 0, 0, known);
    law_snapshot_rows_restore_in_order(nodes, known, m, rows);
    lemma_snapshot_rows_parents_first(nodes, None, 0, 0, known);
    lemma_restore_shapes(rows, sh, m, pages);
}

/// The ToC round trip keeps the tree: restoring a snapshot's rows (distinct
/// row ids, every page they name still existing) gives a tree whose node `k`
/// stands for the node of snapshot row `k`: it carries that row's entry
/// (page titles from the current pages, visibility from the row) under that
/// row's id, sits at the root where the snapshotted node did, and under the
/// restored node of the snapshotted parent otherwise, which always comes
/// before it. When every page is in the snapshot, the tree has no other
/// node.
#[verifier::spinoff_prover]
#[verifier::rlimit(60)]
pub proof fn law_round_trip_keeps_tree(
    nodes: Seq<TocNode>,
    known: Set<PageId>,
    m: Map<TreeId, Seq<char>>,
    rows: Seq<TocRow>,
    pages: Seq<PageRecord>,
    restored: Seq<TocNode>,
    m2: Map<TreeId, Seq<char>>,
)
    requires
        rows.len() == snapshot_rows(nodes, None, 0, 0, known).len(),
        forall|k: int| 0 <= k < rows.len() ==> row_matches(#[trigger] rows[k], snapshot_rows(nodes, None, 0, 0, known)[k], m),
        forall|i: int, j: int| 0 <= i < j < rows.len() ==> (#[trigger] rows[i]).id@ != (#[trigger] rows[j]).id@,
        forall|k: int| 0 <= k < rows.len() && (#[trigger] rows[k]).page_id is Some ==> page_lookup(pages, rows[k].page_id.unwrap()) is Some,
        ({
            let sorted = spec_topological_sort(rows, Set::empty());
            let st = restore_prefix(sorted, pages, sorted.len() as int);
            restored_as(restored, st, orphan_pages(pages, st.referenced), m2)
        }),
    ensures
        ({
            let sh = snapshot_rows(nodes, None, 0, 0, known);
            &&& restored.len() >= rows.len()
            &&& forall|k: int| 0 <= k < rows.len() ==> Some((#[trigger] restored[k]).entry@) == spec_row_to_entry(rows[k], pages)
                && m2[restored[k].tree_id] == rows[k].id@
            &&& forall|k: int| 0 <= k < rows.len() && (#[trigger] sh[k]).parent is None ==> restored[k].parent is None
            &&& forall|k: int| 0 <= k < rows.len() && (#[trigger] sh[k]).parent is Some
                ==> exists|j: int| 0 <= j < k && Some((#[trigger] sh[j]).tree_id) == sh[k].parent
            &&& forall|k: int, j: int| 0 <= j < k < rows.len() && sh[k].parent == Some((#[trigger] sh[j]).tree_id)
                ==> (#[trigger] restored[k]).parent == Some(restored[j].tree_id)
            &&& (forall|i: int| 0 <= i < pages.len() ==> exists|k: int| 0 <= k < rows.len() && rows[k].page_id == Some((#[trigger] pages[i]).page_id))
                ==> restored.len() == rows.len()
            &&& forall|k: int| 0 <= k < rows.len() ==> exists|j: int| 0 <= j < nodes.len()
                && (#[trigger] nodes[j]).tree_id == sh[k].tree_id
                && has_visibility(nodes[j].entry, rows[k].visibility)
                && has_visibility((#[trigger] restored[k]).entry, rows[k].visibility)
        }),
{
    let sh = snapshot_rows(nodes, None, 0, 0, known);
    let sorted = spec_topological_sort(rows, Set::empty());
    let st = restore_prefix(sorted, pages, sorted.len() as int);
    law_snapshot_then_restore(nodes, known, m, rows, pages);
    lemma_snapshot_rows_parents_first(nodes, None, 0, 0, known);
    assert(sorted == rows);
    reveal(restored_rows);
    assert(st.nodes.len() == rows.len());
    assert forall|k: int| 0 <= k < rows.len() implies Some((#[trigger] restored[k]).entry@) == spec_row_to_entry(rows[k], pages)
        && m2[restored[k].tree_id] == rows[k].id@ by {
        assert(carries_at(restored, st, m2, k));
    }
    assert forall|k: int| 0 <= k < rows.len() && (#[trigger] sh[k]).parent is None implies restored[k].parent is None by {
        assert(carries_at(restored, st, m2, k));
        assert(st.nodes[k].parent is None);
    }
    assert forall|k: int, j: int| 0 <= j < k < rows.len() && sh[k].parent == Some((#[trigger] sh[j]).tree_id)
        implies (#[trigger] restored[k]).parent == Some(restored[j].tree_id) by {
        assert(carries_at(restored, st, m2, k));
        assert(st.nodes[k].parent == Some(j));
    }
    law_snapshot_row_describes_its_node(nodes, None, 0, 0, known);
    assert forall|k: int| 0 <= k < rows.len() implies exists|j: int| 0 <= j < nodes.len()
        && (#[trigger] nodes[j]).tree_id == sh[k].tree_id
        && has_visibility(nodes[j].entry, rows[k].visibility)
        && has_visibility((#[trigger] restored[k]).entry, rows[k].visibility) by {
        assert(row_matches(rows[k], sh[k], m));
        assert(carries_at(restored, st, m2, k));
        law_restored_entry_keeps_its_row(rows[k], pages);
        let j = choose|j: int| 0 <= j < nodes.len() && 0 <= j
            && (#[trigger] nodes[j]).tree_id == (#[trigger] sh[k]).tree_id
            && match nodes[j].entry {
                TocEntry::Folder { title, visibility } => sh[k].visibility == visibility
                    && sh[k].folder_title == Some(title@) && sh[k].page_id is None,
                TocEntry::Page { page_id, visibility, .. } => sh[k].visibility == visibility
                    && sh[k].page_id == Some(page_id) && known.contains(page_id) && sh[k].folder_title is None,
                TocEntry::Suggestion { .. } => false,
            };
        assert(has_visibility(nodes[j].entry, rows[k].visibility));
    }
}

/// Every orphan page comes back at the root as a node for that page, with
/// the page's own title, kind and visibility.
pub proof fn law_orphans_keep_their_page(nodes: Seq<TocNode>, st: RestoreState, orphans: Seq<PageRecord>, m: Map<TreeId, Seq<char>>)
    requires
        restored_as(nodes, st, orphans, m),
    ensures
        forall|k: int| 0 <= k < orphans.len() ==> {
            let n = #[trigger] nodes[st.nodes.len() + k];
            &&& n.parent is None
            &&& n.entry matches TocEntry::Page { title, page_id, page_kind, visibility }
                && title@ == orphans[k].info.name@ && page_id == orphans[k].page_id
                && page_kind == orphans[k].info.page_kind && visibility == orphans[k].info.status
        },
{
    assert forall|k: int| 0 <= k < orphans.len() implies {
        let n = #[trigger] nodes[st.nodes.len() + k];
        &&& n.parent is None
        &&& n.entry matches TocEntry::Page { title, page_id, page_kind, visibility }
            && title@ == orphans[k].info.name@ && page_id == orphans[k].page_id
            && page_kind == orphans[k].info.page_kind && visibility == orphans[k].info.status
    } by {
        assert(orphan_at(nodes, st.nodes.len() as int, orphans, m, k));
    }
}

/// The entry is shown at visibility `v`.
pub open spec fn has_visibility(e: TocEntry, v: Status) -> bool {
    match e {
        TocEntry::Folder { visibility, .. } => visibility == v,
        TocEntry::Page { visibility, .. } => visibility == v,
        TocEntry::Suggestion { visibility, .. } => visibility == v,
    }
}

/// The restore of rows carrying shapes whose parents come first.
proof fn lemma_restore_shapes(rows: Seq<TocRow>, sh: Seq<RowShape>, m: Map<TreeId, Seq<char>>, pages: Seq<PageRecord>)
    requires
        rows.len() == sh.len(),
        forall|k: int| 0 <= k < rows.len() ==> row_matches(#[trigger] rows[k], sh[k], m),
        forall|i: int, j: int| 0 <= i < j < rows.len() ==> (#[trigger] rows[i]).id@ != (#[trigger] rows[j]).id@,
        forall|k: int| 0 <= k < sh.len() ==> (#[trigger] sh[k]).parent is None
            || exists|j: int| 0 <= j < k && Some((#[trigger] sh[j]).tree_id) == sh[k].parent,
        forall|k: int| 0 <= k < rows.len() && (#[trigger] rows[k]).page_id is Some ==> page_lookup(pages, rows[k].page_id.unwrap()) is Some,
    ensures
        ({
            let st = restore_prefix(rows, pages, rows.len() as int);
            &&& restored_rows(st, rows, sh, pages, rows.len() as int)
            &&& (orphan_pages(pages, st.referenced).len() == 0 <==>
                forall|i: int| 0 <= i < pages.len() ==> exists|k: int| 0 <= k < rows.len() && rows[k].page_id == Some((#[trigger] pages[i]).page_id))
        }),
{
    reveal(restored_rows);
    lemma_restore_snapshot_rows(rows, sh, m, pages, rows.len() as int);
    let st = restore_prefix(rows, pages, rows.len() as int);
    lemma_orphans_empty(pages, st.referenced, pages.len() as int);
    assert((forall|i: int| 0 <= i < pages.len() ==> st.referenced.contains((#[trigger] pages[i]).page_id)) <==>
        (forall|i: int| 0 <= i < pages.len() ==> exists|k: int| 0 <= k < rows.len() && rows[k].page_id == Some((#[trigger] pages[i]).page_id)));
}

/// No page among the first `n` is an orphan exactly when each is referenced.
proof fn lemma_orphans_empty(pages: Seq<PageRecord>, referenced: Set<PageId>, n: int)
    requires
        0 <= n <= pages.len(),
    ensures
        orphans_prefix(pages, referenced, n).len() == 0 <==> forall|i: int| 0 <= i < n ==> referenced.contains((#[trigger] pages[i]).page_id),
    decreases n,
{
    if n > 0 {
        lemma_orphans_empty(pages, referenced, n - 1);
    }
}

/// Restoring and then snapshotting keeps the row ids: a snapshot of a
/// restored tree, taken with the id map the restore returned, records no
/// new row id, and every node restored from a row is persisted under that
/// row's id.
pub proof fn law_restore_then_snapshot_reuses_ids(
    nodes: Seq<TocNode>,
    st: RestoreState,
    orphans: Seq<PageRecord>,
    m0: Map<TreeId, Seq<char>>,
    m1: Map<TreeId, Seq<char>>,
    known: Set<PageId>,
)
    requires
        restored_as(nodes, st, orphans, m0),
        map_extends(m1, m0),
        keys_from(m1, m0, snapshot_rows(nodes, None, 0, 0, known)),
    ensures
        m1 == m0,
        forall|k: int| 0 <= k < st.nodes.len() ==> m1[(#[trigger] nodes[k]).tree_id] == st.nodes[k].row_id,
{
    let sh = snapshot_rows(nodes, None, 0, 0, known);
    lemma_snapshot_rows_held(nodes, None, 0, 0, known);
    assert forall|k: int| 0 <= k < sh.len() implies m0.contains_key(#[trigger] sh[k].tree_id) by {
        assert(holds(nodes, sh[k].tree_id));
    }
    law_snapshot_reuses_row_ids(m0, m1, sh);
    assert forall|k: int| 0 <= k < st.nodes.len() implies m1[(#[trigger] nodes[k]).tree_id] == st.nodes[k].row_id by {
        assert(carries_at(nodes, st, m0, k));
    }
}

/// The row ids of a list of rows.
pub open spec fn row_ids(rows: Seq<TocRow>) -> Set<Seq<char>> {
    Set::new(|x: Seq<char>| exists|i: int| 0 <= i < rows.len() && (#[trigger] rows[i]).id@ == x)
}

/// The row ids a map gives the nodes of a tree.
pub open spec fn node_row_ids(nodes: Seq<TocNode>, m: Map<TreeId, Seq<char>>) -> Set<Seq<char>> {
    Set::new(|x: Seq<char>| exists|k: int| 0 <= k < nodes.len() && m[(#[trigger] nodes[k]).tree_id] == x)
}

/// Every snapshot row describes the node it was taken from: a kept node of
/// the tree, from position `i` on, with the row's parent; the row carries
/// that node's visibility and its folder title or its (known) page.
pub proof fn law_snapshot_row_describes_its_node(nodes: Seq<TocNode>, parent: Option<TreeId>, i: int, pos: int, known: Set<PageId>)
    ensures
        ({
            let sh = snapshot_rows(nodes, parent, i, pos, known);
            forall|k: int| 0 <= k < sh.len() ==> exists|j: int| 0 <= j < nodes.len() && i <= j
                && (#[trigger] nodes[j]).tree_id == (#[trigger] sh[k]).tree_id
                && match nodes[j].entry {
                    TocEntry::Folder { title, visibility } => sh[k].visibility == visibility
                        && sh[k].folder_title == Some(title@) && sh[k].page_id is None,
                    TocEntry::Page { page_id, visibility, .. } => sh[k].visibility == visibility
                        && sh[k].page_id == Some(page_id) && known.contains(page_id) && sh[k].folder_title is None,
                    TocEntry::Suggestion { .. } => false,
                }
        }),
    decreases nodes.len() - i,
{
    let sh = snapshot_rows(nodes, parent, i, pos, known);
    if 0 <= i < nodes.len() {
        law_snapshot_row_describes_its_node(nodes, parent, i + 1, pos, known);
        if nodes[i].parent == parent && kept_in_snapshot(nodes[i].entry, known) {
            let a = seq![shape_of(nodes[i], parent, pos)];
            let b = snapshot_rows(nodes, Some(nodes[i].tree_id), i + 1, 0, known);
            let c = snapshot_rows(nodes, parent, i + 1, pos + 1, known);
            law_snapshot_row_describes_its_node(nodes, Some(nodes[i].tree_id), i + 1, 0, known);
            law_snapshot_row_describes_its_node(nodes, parent, i + 1, pos + 1, known);
            assert(sh == a + b + c);
            assert forall|k: int| 0 <= k < sh.len() implies exists|j: int| 0 <= j < nodes.len() && i <= j
                && (#[trigger] nodes[j]).tree_id == (#[trigger] sh[k]).tree_id
                && match nodes[j].entry {
                    TocEntry::Folder { title, visibility } => sh[k].visibility == visibility
                        && sh[k].folder_title == Some(title@) && sh[k].page_id is None,
                    TocEntry::Page { page_id, visibility, .. } => sh[k].visibility == visibility
                        && sh[k].page_id == Some(page_id) && known.contains(page_id) && sh[k].folder_title is None,
                    TocEntry::Suggestion { .. } => false,
                } by {
                if k == 0 {
                    assert(nodes[i].tree_id == sh[0].tree_id);
                } else if k < 1 + b.len() {
                    assert(sh[k] == b[k - 1]);
                } else {
                    assert(sh[k] == c[k - 1 - b.len()]);
                }
            }
        } else {
            assert(sh == snapshot_rows(nodes, parent, i + 1, pos, known));
        }
    } else {
        assert(sh.len() == 0);
    }
}

/// Some shape of the list is the node `t`.
pub open spec fn lists_node(sh: Seq<RowShape>, t: TreeId) -> bool {
    exists|x: int| 0 <= x < sh.len() && (#[trigger] sh[x]).tree_id == t
}

/// A kept child of `parent` at or after `i` has its shape in the rows.
proof fn lemma_snapshot_lists_child(nodes: Seq<TocNode>, parent: Option<TreeId>, i: int, pos: int, known: Set<PageId>, k: int)
    requires
        0 <= i <= k < nodes.len(),
        nodes[k].parent == parent,
        kept_in_snapshot(nodes[k].entry, known),
    ensures
        lists_node(snapshot_rows(nodes, parent, i, pos, known), nodes[k].tree_id),
    decreases k - i,
{
    let l = snapshot_rows(nodes, parent, i, pos, known);
    if i == k {
        assert(l[0].tree_id == nodes[k].tree_id);
    } else if nodes[i].parent == parent && kept_in_snapshot(nodes[i].entry, known) {
        let a = seq![shape_of(nodes[i], parent, pos)];
        let b = snapshot_rows(nodes, Some(nodes[i].tree_id), i + 1, 0, known);
        let c = snapshot_rows(nodes, parent, i + 1, pos + 1, known);
        lemma_snapshot_lists_child(nodes, parent, i + 1, pos + 1, known, k);
        let x = choose|x: int| 0 <= x < c.len() && (#[trigger] c[x]).tree_id == nodes[k].tree_id;
        assert(l == a + b + c);
        assert(l[a.len() + b.len() + x] == c[x]);
    } else {
        lemma_snapshot_lists_child(nodes, parent, i + 1, pos, known, k);
    }
}

/// The rows of a kept child's subtree are among the rows of its parent's
/// children.
proof fn lemma_snapshot_lists_subtree(nodes: Seq<TocNode>, parent: Option<TreeId>, i: int, pos: int, known: Set<PageId>, j: int)
    requires
        0 <= i <= j < nodes.len(),
        nodes[j].parent == parent,
        kept_in_snapshot(nodes[j].entry, known),
    ensures
        forall|t: TreeId| #[trigger] lists_node(snapshot_rows(nodes, Some(nodes[j].tree_id), j + 1, 0, known), t)
            ==> lists_node(snapshot_rows(nodes, parent, i, pos, known), t),
    decreases j - i,
{
    let l = snapshot_rows(nodes, parent, i, pos, known);
    if nodes[i].parent == parent && kept_in_snapshot(nodes[i].entry, known) {
        let a = seq![shape_of(nodes[i], parent, pos)];
        let b = snapshot_rows(nodes, Some(nodes[i].tree_id), i + 1, 0, known);
        let c = snapshot_rows(nodes, parent, i + 1, pos + 1, known);
        assert(l == a + b + c);
        if i == j {
            assert forall|t: TreeId| #[trigger] lists_node(b, t) implies lists_node(l, t) by {
                let x = choose|x: int| 0 <= x < b.len() && (#[trigger] b[x]).tree_id == t;
                assert(l[a.len() + x] == b[x]);
            }
        } else {
            lemma_snapshot_lists_subtree(nodes, parent, i + 1, pos + 1, known, j);
            assert forall|t: TreeId| #[trigger] lists_node(c, t) implies lists_node(l, t) by {
                let x = choose|x: int| 0 <= x < c.len() && (#[trigger] c[x]).tree_id == t;
                assert(l[a.len() + b.len() + x] == c[x]);
            }
        }
    } else {
        assert(i != j);
        lemma_snapshot_lists_subtree(nodes, parent, i + 1, pos, known, j);
    }
}

/// In a tree whose parents come first and whose nodes are all kept, the
/// snapshot has a row for every node.
proof fn lemma_snapshot_lists_every_node(nodes: Seq<TocNode>, known: Set<PageId>, k: int)
    requires
        0 <= k < nodes.len(),
        forall|j: int| 0 <= j < nodes.len() && (#[trigger] nodes[j]).parent is Some ==>
            exists|i: int| 0 <= i < j && (#[trigger] nodes[i]).tree_id == nodes[j].parent.unwrap(),
        forall|j: int| 0 <= j < nodes.len() ==> kept_in_snapshot((#[trigger] nodes[j]).entry, known),
    ensures
        lists_node(snapshot_rows(nodes, None, 0, 0, known), nodes[k].tree_id),
        forall|t: TreeId| #[trigger] lists_node(snapshot_rows(nodes, Some(nodes[k].tree_id), k + 1, 0, known), t)
            ==> lists_node(snapshot_rows(nodes, None, 0, 0, known), t),
    decreases k,
{
    assert(kept_in_snapshot(nodes[k].entry, known));
    match nodes[k].parent {
        None => {
            lemma_snapshot_lists_child(nodes, None, 0, 0, known, k);
            lemma_snapshot_lists_subtree(nodes, None, 0, 0, known, k);
        },
        Some(p) => {
            let j = choose|i: int| 0 <= i < k && (#[trigger] nodes[i]).tree_id == nodes[k].parent.unwrap();
            lemma_snapshot_lists_every_node(nodes, known, j);
            lemma_snapshot_lists_child(nodes, Some(nodes[j].tree_id), j + 1, 0, known, k);
            lemma_snapshot_lists_subtree(nodes, Some(nodes[j].tree_id), j + 1, 0, known, k);
        },
    }
}

/// Restoring and then snapshotting keeps the set of row ids: when every
/// page of the restored tree is known, the snapshot has exactly the row ids
/// the restore gave its nodes, the rows' own ids for the nodes restored
/// from rows and the orphans' fresh ones for the rest.
pub proof fn law_restore_then_snapshot_keeps_row_ids(
    nodes: Seq<TocNode>,
    st: RestoreState,
    orphans: Seq<PageRecord>,
    m0: Map<TreeId, Seq<char>>,
    m1: Map<TreeId, Seq<char>>,
    known: Set<PageId>,
    snap: Seq<TocRow>,
)
    requires
        restored_as(nodes, st, orphans, m0),
        forall|k: int| 0 <= k < nodes.len() ==> kept_in_snapshot((#[trigger] nodes[k]).entry, known),
        snap.len() == snapshot_rows(nodes, None, 0, 0, known).len(),
        forall|k: int| 0 <= k < snap.len() ==> row_matches(#[trigger] snap[k], snapshot_rows(nodes, None, 0, 0, known)[k], m1),
        map_extends(m1, m0),
        keys_from(m1, m0, snapshot_rows(nodes, None, 0, 0, known)),
    ensures
        row_ids(snap) == node_row_ids(nodes, m0),
        forall|k: int| 0 <= k < st.nodes.len() ==> m0[(#[trigger] nodes[k]).tree_id] == st.nodes[k].row_id,
{
    let sh = snapshot_rows(nodes, None, 0, 0, known);
    law_restore_then_snapshot_reuses_ids(nodes, st, orphans, m0, m1, known);
    lemma_snapshot_rows_held(nodes, None, 0, 0, known);
    assert forall|j: int| 0 <= j < nodes.len() && (#[trigger] nodes[j]).parent is Some implies
        exists|i: int| 0 <= i < j && (#[trigger] nodes[i]).tree_id == nodes[j].parent.unwrap() by {
        if j < st.nodes.len() {
            assert(carries_at(nodes, st, m0, j));
            let i = st.nodes[j].parent.unwrap();
            assert(nodes[i].tree_id == nodes[j].parent.unwrap());
        } else {
            assert(orphan_at(nodes, st.nodes.len() as int, orphans, m0, j - st.nodes.len()));
        }
    }
    assert forall|x: Seq<char>| #[trigger] row_ids(snap).contains(x) implies node_row_ids(nodes, m0).contains(x) by {
        let i = choose|i: int| 0 <= i < snap.len() && (#[trigger] snap[i]).id@ == x;
        assert(row_matches(snap[i], sh[i], m1));
        assert(holds(nodes, sh[i].tree_id));
        let k = choose|k: int| 0 <= k < nodes.len() && (#[trigger] nodes[k]).tree_id == sh[i].tree_id;
        assert(m0[nodes[k].tree_id] == x);
    }
    assert forall|x: Seq<char>| #[trigger] node_row_ids(nodes, m0).contains(x) implies row_ids(snap).contains(x) by {
        let k = choose|k: int| 0 <= k < nodes.len() && m0[(#[trigger] nodes[k]).tree_id] == x;
        lemma_snapshot_lists_every_node(nodes, known, k);
        let i = choose|i: int| 0 <= i < sh.len() && (#[trigger] sh[i]).tree_id == nodes[k].tree_id;
        assert(row_matches(snap[i], sh[i], m1));
        assert(snap[i].id@ == x);
    }
    assert(row_ids(snap) =~= node_row_ids(nodes, m0));
}

proof fn lemma_referenced_pages_restored(sorted: Seq<TocRow>, pages: Seq<PageRecord>, n: int)
    ensures
        forall|p: PageId| #[trigger] restore_prefix(sorted, pages, n).referenced.contains(p) ==>
            exists|k: int| 0 <= k < restore_prefix(sorted, pages, n).nodes.len()
                && ((#[trigger] restore_prefix(sorted, pages, n).nodes[k]).entry matches TocEntryView::Page { page_id, .. } && page_id == p),
    decreases n,
{
    if n > 0 {
        lemma_referenced_pages_restored(sorted, pages, n - 1);
        let st0 = restore_prefix(sorted, pages, n - 1);
        let st = restore_prefix(sorted, pages, n);
        let row = sorted[n - 1];
        assert forall|p: PageId| #[trigger] st.referenced.contains(p) implies
            exists|k: int| 0 <= k < st.nodes.len() && ((#[trigger] st.nodes[k]).entry matches TocEntryView::Page { page_id, .. } && page_id == p) by {
            if st0.referenced.contains(p) {
                let k = choose|k: int| 0 <= k < st0.nodes.len()
                    && ((#[trigger] st0.nodes[k]).entry matches TocEntryView::Page { page_id, .. } && page_id == p);
                assert(st.nodes[k] == st0.nodes[k]);
            } else {
                assert(st.nodes.len() == st0.nodes.len() + 1);
                assert(st.nodes[st0.nodes.len() as int].entry matches TocEntryView::Page { page_id, .. } && page_id == p);
            }
        }
    }
}

proof fn lemma_orphans_prefix_has(pages: Seq<PageRecord>, referenced: Set<PageId>, n: int, i: int)
    requires
        0 <= i < n <= pages.len(),
        !referenced.contains(pages[i].page_id),
    ensures
        exists|k: int| 0 <= k < orphans_prefix(pages, referenced, n).len() && (#[trigger] orphans_prefix(pages, referenced, n)[k]).page_id == pages[i].page_id,
    decreases n,
{
    let o = orphans_prefix(pages, referenced, n);
    if i == n - 1 {
        assert(o[o.len() - 1] == pages[i]);
    } else {
        lemma_orphans_prefix_has(pages, referenced, n - 1, i);
        let o0 = orphans_prefix(pages, referenced, n - 1);
        let k = choose|k: int| 0 <= k < o0.len() && (#[trigger] o0[k]).page_id == pages[i].page_id;
        assert(o[k] == o0[k]);
    }
}

proof fn lemma_orphans_prefix_empty(pages: Seq<PageRecord>, referenced: Set<PageId>, n: int)
    requires
        0 <= n <= pages.len(),
    ensures
        orphans_prefix(pages, referenced, n).len() == 0 <==> forall|i: int| 0 <= i < n ==> referenced.contains(#[trigger] pages[i].page_id),
    decreases n,
{
    if n > 0 {
        lemma_orphans_prefix_empty(pages, referenced, n - 1);
    }
}

/// Restore loses no page: every page of the campaign has a page node in
/// the restored tree, through its row or as an orphan at the root.
pub proof fn law_restore_covers_every_page(
    nodes: Seq<TocNode>,
    sorted: Seq<TocRow>,
    pages: Seq<PageRecord>,
    m: Map<TreeId, Seq<char>>,
)
    requires
        restored_as(
            nodes,
            restore_prefix(sorted, pages, sorted.len() as int),
            orphan_pages(pages, restore_prefix(sorted, pages, sorted.len() as int).referenced),
            m,
        ),
    ensures
        forall|i: int| 0 <= i < pages.len() ==> exists|k: int| 0 <= k < nodes.len()
            && ((#[trigger] nodes[k]).entry matches TocEntry::Page { page_id, .. } && page_id == (#[trigger] pages[i]).page_id),
{
    let st = restore_prefix(sorted, pages, sorted.len() as int);
    let orph = orphan_pages(pages, st.referenced);
    lemma_referenced_pages_restored(sorted, pages, sorted.len() as int);
    assert forall|i: int| 0 <= i < pages.len() implies exists|k: int| 0 <= k < nodes.len()
        && ((#[trigger] nodes[k]).entry matches TocEntry::Page { page_id, .. } && page_id == (#[trigger] pages[i]).page_id) by {
        let p = pages[i].page_id;
        if st.referenced.contains(p) {
            let k = choose|k: int| 0 <= k < st.nodes.len()
                && ((#[trigger] st.nodes[k]).entry matches TocEntryView::Page { page_id, .. } && page_id == p);
            assert(carries_at(nodes, st, m, k));
        } else {
            lemma_orphans_prefix_has(pages, st.referenced, pages.len() as int, i);
            let k = choose|k: int| 0 <= k < orph.len() && (#[trigger] orph[k]).page_id == p;
            assert(orphan_at(nodes, st.nodes.len() as int, orph, m, k));
            assert(nodes[st.nodes.len() + k].entry matches TocEntry::Page { page_id, .. } && page_id == p);
        }
    }
}

/// A restore is dirty exactly when some page is referenced by no row.
pub proof fn law_restore_dirty_iff_unreferenced_page(sorted: Seq<TocRow>, pages: Seq<PageRecord>)
    ensures
        ({
            let st = restore_prefix(sorted, pages, sorted.len() as int);
            (orphan_pages(pages, st.referenced).len() > 0) <==> exists|i: int| 0 <= i < pages.len() && !st.referenced.contains(#[trigger] pages[i].page_id)
        }),
{
    let st = restore_prefix(sorted, pages, sorted.len() as int);
    lemma_orphans_prefix_empty(pages, st.referenced, pages.len() as int);
}

} // verus!
