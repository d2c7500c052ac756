//! The surroundings of the store, as far as its laws speak of them: what the
//! storage and the index hold, and how requests are answered.
use crate::artifact::{ArtifactView, InstructionView, StateView};
use crate::index::{state_at, Contents};
use crate::key::{before, lemma_before_asymmetric};
use crate::protocol::{EntryView, Process, ReplyView, RequestView, RowView};
use crate::reference::{HASH_SIZE, NULL_REVISION_HASH};
use crate::selector::RangeView;
use vstd::prelude::*;

verus! {

/// The surroundings of a store.
pub struct World {
    /// The blocks of the storage.
    pub blocks: Map<Seq<u8>, Seq<u8>>,
    /// The revisions of the storage: under each reference, the root of the index.
    pub revisions: Map<Seq<u8>, Seq<u8>>,
    /// What the index held at each root that it can be set back to.
    pub trees: Map<Seq<u8>, Contents>,
    /// What the index holds.
    pub index: Contents,
    /// The entries that are yet to be gone through.
    pub scan: Seq<EntryView>,
    /// The instructions to come.
    pub instructions: Seq<InstructionView>,
    /// The rows to come.
    pub rows: Seq<RowView>,
    /// The messages that were shown.
    pub messages: Seq<Seq<char>>,
    /// The artifacts that were handed out.
    pub output: Seq<ArtifactView>,
    /// The artifacts that were written as rows.
    pub written: Seq<ArtifactView>,
    /// The root that the index has with given contents, if they are not empty.
    pub root: spec_fn(Contents) -> Option<Seq<u8>>,
    /// The reference of the revision with a given root.
    pub refer: spec_fn(Seq<u8>) -> Seq<u8>,
}

/// Whether entries are those of the contents whose keys are in the range, in the
/// order of their keys.
pub open spec fn lists(entries: Seq<EntryView>, contents: Contents, range: RangeView) -> bool {
    &&& forall|i: int|
        #![trigger entries[i]]
        0 <= i < entries.len() ==> range.has_key(entries[i].key) && state_at(
            contents,
            entries[i].key,
        ) == Some(entries[i].value)
    &&& forall|i: int, j: int|
        0 <= i < j < entries.len() ==> before(#[trigger] entries[i].key, #[trigger] entries[j].key)
    &&& forall|key: Seq<u8>|
        #![trigger contents.dom().contains(key)]
        contents.dom().contains(key) && range.has_key(key) ==> exists|i: int|
            0 <= i < entries.len() && entries[i].key == key
}

/// The value that a map holds under a key, if there is one.
pub open spec fn held<V>(map: Map<Seq<u8>, V>, key: Seq<u8>) -> Option<V> {
    if map.dom().contains(key) {
        Some(map[key])
    } else {
        None
    }
}

/// Whether a map holds nothing else than the given value under a key.
pub open spec fn agrees<V>(map: Map<Seq<u8>, V>, key: Seq<u8>, value: V) -> bool {
    map.dom().contains(key) ==> map[key] == value
}

impl World {
    /// The root of the index, if it holds anything.
    pub open spec fn index_root(self) -> Option<Seq<u8>> {
        (self.root)(self.index)
    }

    /// The reference of the revision that the store is at.
    pub open spec fn revision(self) -> Seq<u8> {
        match self.index_root() {
            Some(root) => (self.refer)(root),
            None => NULL_REVISION_HASH@,
        }
    }

    /// Whether the index, if it holds anything, is that of a stored revision.
    pub open spec fn is_settled(self) -> bool {
        match self.index_root() {
            Some(root) => held(self.revisions, (self.refer)(root)) == Some(root) && held(
                self.trees,
                root,
            ) == Some(self.index),
            None => self.index == Map::<Seq<u8>, StateView>::empty(),
        }
    }

    /// Whether everything is stored under its own name: each revision under its
    /// reference, which is not the null revision, and what the index held under the
    /// root that it has with these contents. Only the empty index has no root, and
    /// references are hashes.
    pub open spec fn is_coherent(self) -> bool {
        &&& forall|reference: Seq<u8>| #[trigger]
            self.revisions.dom().contains(reference) ==> reference != NULL_REVISION_HASH@ && (
            self.refer)(self.revisions[reference]) == reference
        &&& forall|root: Seq<u8>| #[trigger]
            self.trees.dom().contains(root) ==> (self.root)(self.trees[root]) == Some(root)
        &&& forall|contents: Contents|
            (#[trigger] (self.root)(contents)) is None <==> contents == Map::<
                Seq<u8>,
                StateView,
            >::empty()
        &&& forall|root: Seq<u8>| (#[trigger] (self.refer)(root)).len() == HASH_SIZE
    }

    /// Whether a reply answers a request, and what becomes of the world with it.
    ///
    /// Where references are told, no two things share one: that of a revision is
    /// not the null revision, nor that of another stored one, and a root is not
    /// that of other contents.
    pub open spec fn answers(self, request: RequestView, reply: ReplyView, after: World) -> bool {
        match (request, reply) {
            (RequestView::GetBlock(key), ReplyView::Block(block)) => {
                &&& block == held(self.blocks, key)
                &&& after == self
            },
            (RequestView::SetBlock(key, block), ReplyView::Done) => after == (World {
                blocks: self.blocks.insert(key, block),
                ..self
            }),
            (RequestView::ReadRevision(reference), ReplyView::Revision(root)) => {
                &&& root == held(self.revisions, reference)
                &&& after == self
            },
            (RequestView::WriteRevision(root), ReplyView::Done) => {
                &&& (self.refer)(root) != NULL_REVISION_HASH@
                &&& agrees(self.revisions, (self.refer)(root), root)
                &&& after == (World {
                    revisions: self.revisions.insert((self.refer)(root), root),
                    ..self
                })
            },
            (RequestView::ReferToRevision(root), ReplyView::Reference(reference)) => {
                &&& reference == (self.refer)(root)
                &&& reference != NULL_REVISION_HASH@
                &&& after == self
            },
            (RequestView::OpenIndex(root), ReplyView::Done) => self.sets_root(root, after),
            (RequestView::SetRoot(root), ReplyView::Done) => self.sets_root(root, after),
            (RequestView::GetRoot, ReplyView::Root(Some(root))) => {
                &&& self.index_root() == Some(root)
                &&& self.index != Map::<Seq<u8>, StateView>::empty()
                &&& agrees(self.trees, root, self.index)
                &&& after == (World { trees: self.trees.insert(root, self.index), ..self })
            },
            (RequestView::GetRoot, ReplyView::Root(None)) => {
                &&& self.index_root() is None
                &&& self.index == Map::<Seq<u8>, StateView>::empty()
                &&& after == self
            },
            (RequestView::SetEntry(key, state), ReplyView::Done) => after == (World {
                index: self.index.insert(key, state),
                ..self
            }),
            (RequestView::DeleteEntry(key), ReplyView::Done) => after == (World {
                index: self.index.remove(key),
                ..self
            }),
            (RequestView::Scan(range), ReplyView::Done) => {
                &&& lists(after.scan, self.index, range)
                &&& after == (World { scan: after.scan, ..self })
            },
            (RequestView::NextEntry, ReplyView::Entry(Some(entry))) => {
                &&& self.scan.len() > 0
                &&& entry == self.scan[0]
                &&& after == (World { scan: self.scan.drop_first(), ..self })
            },
            (RequestView::NextEntry, ReplyView::Entry(None)) => {
                &&& self.scan.len() == 0
                &&& after == self
            },
            (RequestView::NextInstruction, ReplyView::Instruction(Some(instruction))) => {
                &&& self.instructions.len() > 0
                &&& instruction == self.instructions[0]
                &&& after == (World { instructions: self.instructions.drop_first(), ..self })
            },
            (RequestView::NextInstruction, ReplyView::Instruction(None)) => {
                &&& self.instructions.len() == 0
                &&& after == self
            },
            (RequestView::NextRow, ReplyView::Row(Some(row))) => {
                &&& self.rows.len() > 0
                &&& row == self.rows[0]
                &&& after == (World { rows: self.rows.drop_first(), ..self })
            },
            (RequestView::NextRow, ReplyView::Row(None)) => {
                &&& self.rows.len() == 0
                &&& after == self
            },
            (RequestView::Report(message), ReplyView::Done) => after == (World {
                messages: self.messages.push(message),
                ..self
            }),
            (RequestView::Yield(artifact), ReplyView::Done) => after == (World {
                output: self.output.push(artifact),
                ..self
            }),
            (RequestView::WriteRow(artifact), ReplyView::Done) => after == (World {
                written: self.written.push(artifact),
                ..self
            }),
            (RequestView::WriteRow(_), ReplyView::RowFailed(_)) => after == self,
            (_, ReplyView::Failed(_)) => self.fails(request, after),
            _ => false,
        }
    }

    /// Whether the index is made to hold what it held at a root, or nothing.
    pub open spec fn sets_root(self, root: Option<Seq<u8>>, after: World) -> bool {
        match root {
            Some(root) => {
                &&& self.trees.dom().contains(root)
                &&& after == (World { index: self.trees[root], ..self })
            },
            None => after == (World { index: Map::empty(), ..self }),
        }
    }

    /// What a request that fails leaves behind: where it was to change something,
    /// that is in doubt, and nothing else changes.
    pub open spec fn fails(self, request: RequestView, after: World) -> bool {
        match request {
            RequestView::GetBlock(_) => after == self,
            RequestView::SetBlock(key, _) => {
                &&& after.blocks.remove(key) == self.blocks.remove(key)
                &&& after == (World { blocks: after.blocks, ..self })
            },
            RequestView::ReadRevision(_) => after == self,
            RequestView::WriteRevision(root) => {
                ||| after == self
                ||| {
                    &&& (self.refer)(root) != NULL_REVISION_HASH@
                    &&& agrees(self.revisions, (self.refer)(root), root)
                    &&& after == (World {
                        revisions: self.revisions.insert((self.refer)(root), root),
                        ..self
                    })
                }
            },
            RequestView::ReferToRevision(_) => after == self,
            RequestView::OpenIndex(_) | RequestView::SetRoot(_) | RequestView::SetEntry(..)
            | RequestView::DeleteEntry(_) => after == (World { index: after.index, ..self }),
            RequestView::Scan(_) | RequestView::NextEntry => after == (World {
                scan: after.scan,
                ..self
            }),
            _ => false,
        }
    }
}

/// A course of events: the replies that a process got, and the world after each.
pub type Course = Seq<(ReplyView, World)>;

/// Whether a process takes a course, from a world on.
pub open spec fn takes<P: Process>(process: P, world: World, course: Course) -> bool
    decreases course.len(),
{
    course.len() == 0 || {
        let (reply, after) = course[0];
        &&& process.request() matches Some(request) && world.answers(request, reply, after)
        &&& takes(process.next(reply), after, course.drop_first())
    }
}

/// The process at the end of a course.
pub open spec fn process_after<P: Process>(process: P, course: Course) -> P
    decreases course.len(),
{
    if course.len() == 0 {
        process
    } else {
        process_after(process.next(course[0].0), course.drop_first())
    }
}

/// The world at the end of a course.
pub open spec fn world_after(world: World, course: Course) -> World {
    if course.len() == 0 {
        world
    } else {
        course.last().1
    }
}

/// Whether no request fails in a course.
pub open spec fn is_smooth(course: Course) -> bool {
    forall|i: int|
        0 <= i < course.len() ==> !((#[trigger] course[i]).0 is Failed) && !(course[i].0 is RowFailed)
}

/// Where no request fails in a course, none fails first, nor in the rest.
pub proof fn lemma_smooth_rest(course: Course)
    requires
        is_smooth(course),
        course.len() > 0,
    ensures
        !(course[0].0 is Failed),
        !(course[0].0 is RowFailed),
        is_smooth(course.drop_first()),
{
    let rest = course.drop_first();
    assert forall|i: int| 0 <= i < rest.len() implies !((#[trigger] rest[i]).0 is Failed) && !(
    rest[i].0 is RowFailed) by {
        assert(rest[i] == course[i + 1]);
    }
}

/// The entries of contents in a range are listed in one way only.
pub proof fn lemma_lists_unique(
    a: Seq<EntryView>,
    b: Seq<EntryView>,
    contents: Contents,
    range: RangeView,
)
    requires
        lists(a, contents, range),
        lists(b, contents, range),
    ensures
        a == b,
{
    lemma_lists_prefix(a, b, contents, range, a.len() as int);
    lemma_lists_prefix(b, a, contents, range, b.len() as int);
    assert(a =~= b);
}

proof fn lemma_lists_prefix(
    a: Seq<EntryView>,
    b: Seq<EntryView>,
    contents: Contents,
    range: RangeView,
    n: int,
)
    requires
        lists(a, contents, range),
        lists(b, contents, range),
        0 <= n <= a.len(),
    ensures
        n <= b.len(),
        forall|i: int| 0 <= i < n ==> #[trigger] a[i] == b[i],
    decreases n,
{
    if n > 0 {
        let m = n - 1;
        lemma_lists_prefix(a, b, contents, range, m);
        assert(contents.dom().contains(a[m].key));
        let i = choose|i: int| 0 <= i < b.len() && b[i].key == a[m].key;
        if i < m {
            assert(a[i] == b[i]);
            assert(before(a[i].key, a[m].key));
            lemma_before_asymmetric(a[i].key, a[m].key);
        }
        if i > m {
            // The entry of `b` at `m` is in `a` too, and comes before that at `m`.
            assert(contents.dom().contains(b[m].key));
            let j = choose|j: int| 0 <= j < a.len() && a[j].key == b[m].key;
            assert(before(b[m].key, b[i].key));
            lemma_before_asymmetric(b[m].key, b[i].key);
            if j < m {
                assert(a[j] == b[j]);
                assert(before(b[j].key, b[m].key));
                lemma_before_asymmetric(b[j].key, b[m].key);
            } else if j > m {
                assert(before(a[m].key, a[j].key));
            }
        }
        assert(i == m);
        assert(a[m] == b[m]) by {
            assert(state_at(contents, a[m].key) == Some(a[m].value));
            assert(state_at(contents, b[m].key) == Some(b[m].value));
        }
    }
}

} // verus!
