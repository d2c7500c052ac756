//! The store, driven over a storage and an index in memory.
use dialog_artifacts::commit::{Commit, CommitPhase};
use dialog_artifacts::import::Import;
use dialog_artifacts::open::{make_pointer, Open, OpenPhase};
use dialog_artifacts::protocol::Access;
use dialog_artifacts::reading::{Reading, ReadingPhase};
use dialog_artifacts::record::Record;
use dialog_artifacts::reset::{Reset, ResetPhase};
use dialog_artifacts::revision::RevisionQuery;
use dialog_artifacts::store::identifier_of;
use dialog_artifacts::{
    make_reference, Artifact, ArtifactSelector, Artifacts, Attribute, Blake3Hash, Cause, Datum,
    DialogArtifactsError, Entity, Entry, Instruction, Key, Reply, Request, Revision, State, Value,
    NULL_REVISION_HASH,
};
use std::collections::{BTreeMap, BTreeSet, VecDeque};

#[derive(Default)]
struct Memory {
    blocks: BTreeMap<Blake3Hash, Vec<u8>>,
    revisions: BTreeMap<Blake3Hash, Revision>,
    trees: BTreeMap<Blake3Hash, Vec<(Key, State)>>,
    index: BTreeMap<Key, State>,
    scan: VecDeque<(Key, State)>,
    instructions: VecDeque<Instruction>,
    rows: VecDeque<Result<Artifact, String>>,
    messages: Vec<String>,
    output: Vec<Artifact>,
    log: Vec<String>,
    fail_at: Option<usize>,
}

fn entries(index: &BTreeMap<Key, State>) -> Vec<(Key, State)> {
    index.iter().map(|(key, state)| (*key, state.clone())).collect()
}

fn refer(revision: &Revision) -> Blake3Hash {
    let mut bytes = b"revision".to_vec();
    bytes.extend_from_slice(revision.index());
    make_reference(&bytes)
}

impl Memory {
    fn root(&mut self) -> Option<Blake3Hash> {
        if self.index.is_empty() {
            return None;
        }
        let all = entries(&self.index);
        let root = make_reference(format!("{:?}", all).as_bytes());
        self.trees.insert(root, all);
        Some(root)
    }

    fn set_root(&mut self, root: Option<Blake3Hash>) -> Reply {
        self.index = match root {
            Some(root) => self.trees[&root].iter().cloned().collect(),
            None => BTreeMap::new(),
        };
        Reply::Done
    }

    fn answer(&mut self, request: Request) -> Reply {
        let text = format!("{:?}", request);
        let name = text.split('(').next().unwrap().to_string();
        self.log.push(name);
        if self.fail_at == Some(self.log.len() - 1) {
            return Reply::Failed(DialogArtifactsError::Storage("no".to_string()));
        }
        match request {
            Request::GetBlock(key) => Reply::Block(self.blocks.get(&key).cloned()),
            Request::SetBlock(key, block) => {
                self.blocks.insert(key, block);
                Reply::Done
            }
            Request::ReadRevision(key) => Reply::Revision(self.revisions.get(&key).copied()),
            Request::WriteRevision(revision) => {
                self.revisions.insert(refer(&revision), revision);
                Reply::Done
            }
            Request::ReferToRevision(revision) => Reply::Reference(refer(&revision)),
            Request::OpenIndex(root) => self.set_root(root),
            Request::SetRoot(root) => self.set_root(root),
            Request::GetRoot => Reply::Root(self.root()),
            Request::SetEntry(key, state) => {
                self.index.insert(key, state);
                Reply::Done
            }
            Request::DeleteEntry(key) => {
                self.index.remove(&key);
                Reply::Done
            }
            Request::Scan(range) => {
                self.scan = entries(&self.index)
                    .into_iter()
                    .filter(|(key, _)| range.start <= *key && *key < range.end)
                    .collect();
                Reply::Done
            }
            Request::NextEntry => {
                Reply::Entry(self.scan.pop_front().map(|(key, value)| Entry { key, value }))
            }
            Request::NextInstruction => Reply::Instruction(self.instructions.pop_front()),
            Request::NextRow => Reply::Row(self.rows.pop_front()),
            Request::Report(message) => {
                self.messages.push(message);
                Reply::Done
            }
            Request::Yield(artifact) => {
                self.output.push(artifact);
                Reply::Done
            }
            Request::WriteRow(artifact) => {
                self.output.push(artifact);
                Reply::Done
            }
        }
    }

    fn open(&mut self, open: Open) -> Result<Artifacts<()>, DialogArtifactsError> {
        let mut process = open;
        while let Some(request) = process.request() {
            process = process.resume(self.answer(request));
        }
        Artifacts::opened(process, ()).unwrap()
    }

    fn commit(
        &mut self,
        store: &Artifacts<()>,
        instructions: Vec<Instruction>,
    ) -> Result<Blake3Hash, DialogArtifactsError> {
        self.instructions = instructions.into();
        let mut process = store.commit();
        while let Some(request) = process.request() {
            process = process.resume(self.answer(request));
        }
        match process.phase() {
            CommitPhase::Finished(outcome) => outcome.clone(),
            _ => unreachable!(),
        }
    }

    fn assert_all(&mut self, store: &Artifacts<()>, data: Vec<Artifact>) -> Blake3Hash {
        self.commit(store, data.into_iter().map(Instruction::Assert).collect()).unwrap()
    }

    fn reset(
        &mut self,
        store: &Artifacts<()>,
        revision: Option<Blake3Hash>,
    ) -> Result<(), DialogArtifactsError> {
        let mut process = store.reset(revision);
        while let Some(request) = process.request() {
            process = process.resume(self.answer(request));
        }
        match process.phase() {
            ResetPhase::Finished(outcome) => outcome.clone(),
            _ => unreachable!(),
        }
    }

    fn revision(&mut self, store: &Artifacts<()>) -> Result<Blake3Hash, DialogArtifactsError> {
        let mut process = store.revision();
        while let Some(request) = process.request() {
            process = process.resume(self.answer(request));
        }
        match process {
            RevisionQuery::Finished(outcome) => outcome,
            _ => unreachable!(),
        }
    }

    fn read(&mut self, reading: Reading) -> Result<Vec<Artifact>, DialogArtifactsError> {
        self.output.clear();
        let mut process = reading;
        while let Some(request) = process.request() {
            process = process.resume(self.answer(request));
        }
        match process.phase() {
            ReadingPhase::Finished(Ok(())) => Ok(std::mem::take(&mut self.output)),
            ReadingPhase::Finished(Err(error)) => Err(error.clone()),
            _ => unreachable!(),
        }
    }

    fn import(&mut self, store: &Artifacts<()>) -> Result<Blake3Hash, DialogArtifactsError> {
        let mut process: Import = store.import();
        while let Some(request) = process.request() {
            process = process.resume(self.answer(request));
        }
        match process.commit().phase() {
            CommitPhase::Finished(outcome) => outcome.clone(),
            _ => unreachable!(),
        }
    }
}

fn attribute(text: &str) -> Attribute {
    Attribute::parse(text).unwrap()
}

fn entity(text: &str) -> Entity {
    Entity::parse(text).unwrap()
}

fn artifact(the: &str, of: &str, is: Value) -> Artifact {
    Artifact { the: attribute(the), of: entity(of), is, cause: None }
}

fn text(value: &str) -> Value {
    Value::String(value.to_string())
}

fn generate_data(first: u32, n: u32) -> Vec<Artifact> {
    let mut data = vec![];
    for i in first..first + n {
        let of = format!("entity:{i}");
        data.push(artifact("item/id", &of, Value::UnsignedInt(i as u128)));
        data.push(artifact("item/name", &of, text(&format!("name{i}"))));
    }
    data
}

fn names(artifacts: &[Artifact]) -> BTreeSet<String> {
    artifacts.iter().map(|artifact| artifact.of.as_str().to_string()).collect()
}

fn anonymous() -> (Memory, Artifacts<()>) {
    let mut memory = Memory::default();
    let store = memory.open(Artifacts::<()>::anonymous()).unwrap();
    (memory, store)
}

#[test]
fn it_commits_and_selects_facts() {
    let (mut memory, store) = anonymous();
    let data = vec![
        artifact("profile/name", "entity:1", text("Foo Bar")),
        artifact("profile/name", "entity:2", text("Fizz Buzz")),
    ];
    memory.assert_all(&store, data.clone());
    let found = memory
        .read(store.select(ArtifactSelector::new().the(attribute("profile/name"))))
        .unwrap();
    assert_eq!(data, found);
}

#[test]
fn it_pins_a_stream_at_the_version_where_iteration_begins() {
    let (mut memory, store) = anonymous();
    let data = generate_data(0, 5);
    let entities = names(&data);
    memory.assert_all(&store, data);

    let mut reading = store.select(ArtifactSelector::new().the(attribute("item/id")));
    let mut count = 0usize;
    let mut pinned = VecDeque::new();
    while let Some(request) = reading.request() {
        // The reading has its own place in the index, whatever others do.
        std::mem::swap(&mut memory.scan, &mut pinned);
        if let Request::Yield(artifact) = &request {
            assert!(entities.contains(artifact.of.as_str()));
            count += 1;
        }
        let reply = memory.answer(request);
        std::mem::swap(&mut memory.scan, &mut pinned);
        reading = reading.resume(reply);
        memory.assert_all(&store, generate_data(100 + count as u32, 1));
    }
    assert_eq!(count, 5);
}

#[test]
fn it_can_export_to_and_import_from_csv() {
    let (mut memory, store) = anonymous();
    memory.assert_all(&store, generate_data(0, 1));
    let expected = memory
        .read(store.select(ArtifactSelector::new().the(attribute("item/id"))))
        .unwrap();
    let expected_revision = memory.revision(&store);
    let rows = memory.read(store.export()).unwrap();
    assert_eq!(rows.len(), 2);
    assert_eq!(rows, memory.read(store.stream_all()).unwrap());

    let (mut other, copy) = anonymous();
    other.rows = rows.iter().map(|row| Record::of_artifact(row).artifact()).collect();
    other.import(&copy).unwrap();
    let actual = other
        .read(copy.select(ArtifactSelector::new().the(attribute("item/id"))))
        .unwrap();
    assert_eq!(expected, actual);
    assert_eq!(expected_revision, other.revision(&copy));
}

#[test]
fn it_finds_by_entity_and_value() {
    let (mut memory, store) = anonymous();
    memory.assert_all(&store, generate_data(0, 32));
    let selector = ArtifactSelector::new().of(entity("entity:18")).is(text("name18"));
    assert_eq!(
        memory.read(store.select(selector)).unwrap(),
        vec![artifact("item/name", "entity:18", text("name18"))]
    );
}

#[test]
fn it_finds_by_attribute_and_value() {
    let (mut memory, store) = anonymous();
    memory.assert_all(&store, generate_data(0, 32));
    let selector = ArtifactSelector::new().the(attribute("item/name")).is(text("name18"));
    assert_eq!(
        memory.read(store.select(selector)).unwrap(),
        vec![artifact("item/name", "entity:18", text("name18"))]
    );
}

#[test]
fn it_goes_through_the_entries_of_the_range_only() {
    let (mut memory, store) = anonymous();
    memory.assert_all(&store, generate_data(0, 256));
    memory.log.clear();
    let found = memory.read(store.select(ArtifactSelector::new().is(text("name64")))).unwrap();
    assert_eq!(found.len(), 1);
    assert_eq!(memory.log, vec!["Scan", "NextEntry", "Yield", "NextEntry"]);
    let found = memory
        .read(store.select(ArtifactSelector::new().the(attribute("item/id"))))
        .unwrap();
    assert_eq!(found.len(), 256);
}

#[test]
fn it_completes_a_query_when_no_data_matches() {
    let (mut memory, store) = anonymous();
    let data = (0..3)
        .map(|i| artifact("test/attribute", &format!("entity:{i}"), Value::UnsignedInt(124)))
        .collect();
    memory.assert_all(&store, data);
    let found = memory
        .read(store.select(ArtifactSelector::new().is(Value::UnsignedInt(123))))
        .unwrap();
    assert_eq!(names(&found).len(), 0);
}

#[test]
fn it_distinguishes_same_value_across_different_entities() {
    let (mut memory, store) = anonymous();
    let data = (1000..1003)
        .map(|i| artifact("test/attribute", &format!("entity:{i}"), Value::UnsignedInt(123)))
        .collect();
    memory.assert_all(&store, data);
    memory.assert_all(&store, generate_data(0, 32));
    let found = memory
        .read(store.select(ArtifactSelector::new().is(Value::UnsignedInt(123))))
        .unwrap();
    assert_eq!(names(&found).len(), 3);
}

#[test]
fn it_produces_the_same_version_with_different_insertion_order() {
    let data = generate_data(0, 32);
    let mut reordered = data.clone();
    reordered.reverse();
    assert_ne!(data, reordered);
    let (mut memory, store) = anonymous();
    memory.assert_all(&store, data);
    let (mut other, copy) = anonymous();
    other.assert_all(&copy, reordered);
    assert_eq!(memory.revision(&store), other.revision(&copy));
}

#[test]
fn it_can_restore_a_previously_commited_version() {
    let (mut memory, store) = anonymous();
    let committed = memory.assert_all(&store, generate_data(0, 64));
    let revision = memory.revision(&store);
    assert_eq!(revision, Ok(committed));
    let selector = || ArtifactSelector::new().is(text("name10"));
    let results = memory.read(store.select(selector())).unwrap();
    assert_eq!(results.len(), 1);

    let id = store.identifier().to_string();
    memory.index.clear();
    let restored = memory.open(Artifacts::<()>::open(id.clone())).unwrap();
    assert_eq!(restored.identifier(), id);
    assert_eq!(revision, memory.revision(&restored));
    assert_eq!(results, memory.read(restored.select(selector())).unwrap());
}

#[test]
fn it_can_upsert_facts() {
    let (mut memory, store) = anonymous();
    let fact = artifact("test/attribute", "entity:1", Value::Boolean(false));
    memory.assert_all(&store, vec![fact.clone()]);
    let updated = fact.clone().update(Value::Boolean(true));
    assert_eq!(updated.cause, Some(Cause::of_artifact(&fact)));
    memory.assert_all(&store, vec![updated.clone()]);
    let results = memory.read(store.select(ArtifactSelector::new().of(entity("entity:1"))));
    assert_eq!(results, Ok(vec![updated]));
    assert_eq!(memory.index.len(), 3);
}

#[test]
fn it_keeps_what_a_foreign_cause_refers_to() {
    let (mut memory, store) = anonymous();
    let fact = artifact("test/attribute", "entity:1", Value::Boolean(false));
    let mut other = artifact("test/other", "entity:1", Value::Boolean(true));
    other.cause = Some(Cause::of_artifact(&fact));
    memory.assert_all(&store, vec![fact.clone(), other.clone()]);
    let results = memory.read(store.select(ArtifactSelector::new().of(entity("entity:1"))));
    assert_eq!(results, Ok(vec![fact, other]));
}

#[test]
fn it_retracts_facts() {
    let (mut memory, store) = anonymous();
    let data = generate_data(0, 2);
    memory.assert_all(&store, data.clone());
    memory.commit(&store, vec![Instruction::Retract(data[0].clone())]).unwrap();
    let left = memory.read(store.stream_all()).unwrap();
    assert_eq!(left.len(), 3);
    assert!(!left.contains(&data[0]));
    let removed = memory.index.values().filter(|state| **state == State::Removed).count();
    assert_eq!(removed, 3);
}

#[test]
fn it_can_reset_to_an_earlier_version() {
    let (mut memory, store) = anonymous();
    let data = generate_data(0, 16);
    let expected = names(&data);
    let revision = memory.assert_all(&store, data);
    memory.assert_all(&store, generate_data(100, 16));
    memory.reset(&store, Some(revision)).unwrap();
    let results = memory
        .read(store.select(ArtifactSelector::new().the(attribute("item/id"))))
        .unwrap();
    assert_eq!(results.len(), 16);
    for result in &results {
        assert!(expected.contains(result.of.as_str()));
    }
    assert_eq!(memory.revision(&store), Ok(revision));
}

#[test]
fn it_can_reset_before_commit() {
    let (mut memory, store) = anonymous();
    memory.reset(&store, None).unwrap();
    assert_eq!(memory.revision(&store), Ok(NULL_REVISION_HASH));
}

#[test]
fn it_stores_null_revision_hash_directly() {
    let (mut memory, store) = anonymous();
    memory.reset(&store, Some(NULL_REVISION_HASH)).unwrap();
    let stored = memory.blocks.get(&make_reference(store.identifier().as_bytes())).cloned();
    assert!(stored.is_some(), "Reference should exist");
    assert_eq!(stored.unwrap(), NULL_REVISION_HASH.to_vec());
}

#[test]
fn it_handles_existing_null_revision() {
    let (mut memory, store) = anonymous();
    let pointer = make_reference(store.identifier().as_bytes());
    memory.blocks.insert(pointer, NULL_REVISION_HASH.to_vec());
    let before = memory.blocks.get(&pointer).cloned();
    memory.reset(&store, None).unwrap();
    assert_eq!(before, memory.blocks.get(&pointer).cloned());
    memory.assert_all(&store, vec![artifact("test/attribute", "entity:1", text("test value"))]);
    let results = memory
        .read(store.select(ArtifactSelector::new().the(attribute("test/attribute"))))
        .unwrap();
    assert_eq!(results.len(), 1);
}

#[test]
fn it_treats_null_revision_as_empty() {
    let (mut memory, store) = anonymous();
    memory.assert_all(&store, vec![artifact("test/attribute", "entity:1", text("test value"))]);
    let selector = || ArtifactSelector::new().the(attribute("test/attribute"));
    assert_eq!(memory.read(store.select(selector())).unwrap().len(), 1);
    memory.reset(&store, Some(NULL_REVISION_HASH)).unwrap();
    assert_eq!(memory.read(store.select(selector())).unwrap().len(), 0);
}

#[test]
fn it_verifies_storage_operations_for_null_revision() {
    let (mut memory, store) = anonymous();
    memory.reset(&store, Some(NULL_REVISION_HASH)).unwrap();
    let pointer = make_reference(store.identifier().as_bytes());
    assert_eq!(memory.blocks.get(&pointer).cloned(), Some(NULL_REVISION_HASH.to_vec()));
}

#[test]
fn it_can_open_with_null_revision_hash() {
    let mut memory = Memory::default();
    let identifier = "test-artifacts".to_string();
    memory
        .blocks
        .insert(make_reference(identifier.as_bytes()), NULL_REVISION_HASH.to_vec());
    let store = memory.open(Artifacts::<()>::open(identifier)).unwrap();
    memory.assert_all(&store, vec![artifact("test/attribute", "entity:1", text("test value"))]);
    let results = memory
        .read(store.select(ArtifactSelector::new().the(attribute("test/attribute"))))
        .unwrap();
    assert_eq!(results.len(), 1);
}

#[test]
fn it_avoids_unnecessary_storage_writes() {
    let (mut memory, store) = anonymous();
    memory.blocks.insert([42u8; 32], vec![1, 2, 3]);
    memory.assert_all(&store, vec![artifact("test/attribute", "entity:1", text("test value"))]);
    let _ = memory.revision(&store);
    let before = memory.blocks.clone();
    memory.log.clear();
    memory.reset(&store, None).unwrap();
    assert_eq!(before, memory.blocks);
    assert_eq!(memory.log, vec!["GetBlock", "ReadRevision", "SetRoot"]);
}

#[test]
fn it_refuses_a_block_of_the_wrong_length() {
    let error = DialogArtifactsError::InvalidRevision(
        "Incorrect byte length (expected 32, received 3)".to_string(),
    );
    let mut memory = Memory::default();
    memory.blocks.insert(make_pointer("x"), vec![1, 2, 3]);
    assert_eq!(memory.open(Artifacts::<()>::open("x".to_string())).err(), Some(error.clone()));

    let (mut memory, store) = anonymous();
    memory.blocks.insert(make_pointer(store.identifier()), vec![1, 2, 3]);
    assert_eq!(memory.reset(&store, None), Err(error));
}

#[test]
fn it_refuses_a_revision_that_is_not_stored() {
    let (mut memory, store) = anonymous();
    let mut missing = [0u8; 32];
    missing[30] = 1;
    missing[31] = 2;
    // 258 is 4 times 58 and 26.
    let text = format!("Block ({}5T) not found in storage", "1".repeat(30));
    let blocks = memory.blocks.clone();
    assert_eq!(
        memory.reset(&store, Some(missing)),
        Err(DialogArtifactsError::InvalidRevision(text))
    );
    assert_eq!(blocks, memory.blocks);
}

#[test]
fn it_opens_empty_where_the_revision_is_not_stored() {
    let mut memory = Memory::default();
    memory.blocks.insert(make_pointer("x"), vec![7; 32]);
    let store = memory.open(Artifacts::<()>::open("x".to_string())).unwrap();
    assert_eq!(memory.revision(&store), Ok(NULL_REVISION_HASH));
}

#[test]
fn a_failing_commit_falls_back_wherever_it_fails() {
    let (mut memory, store) = anonymous();
    let fact = artifact("test/attribute", "entity:1", Value::Boolean(false));
    memory.assert_all(&store, vec![fact.clone()]);
    let index = memory.index.clone();
    let blocks = memory.blocks.clone();
    let mut failures = 0;
    for at in 0.. {
        memory.log.clear();
        memory.fail_at = Some(at);
        let update = fact.clone().update(Value::Boolean(true));
        // The requests for instructions and for the root cannot fail.
        let outcome = match probe(&memory, &store, &update, at) {
            Some(true) => memory.commit(&store, vec![Instruction::Assert(update)]),
            Some(false) => continue,
            None => break,
        };
        assert_eq!(outcome, Err(DialogArtifactsError::Storage("no".to_string())));
        assert_eq!(memory.index, index);
        assert_eq!(memory.blocks, blocks);
        failures += 1;
    }
    assert_eq!(failures, 12);
}

fn probe(memory: &Memory, store: &Artifacts<()>, update: &Artifact, at: usize) -> Option<bool> {
    let mut copy = Memory {
        blocks: memory.blocks.clone(),
        revisions: memory.revisions.clone(),
        trees: memory.trees.clone(),
        index: memory.index.clone(),
        ..Memory::default()
    };
    copy.assert_all(store, vec![update.clone()]);
    let name = copy.log.get(at)?;
    Some(name != "NextInstruction" && name != "GetRoot")
}

#[test]
fn a_commit_fails_where_the_search_meets_what_cannot_be_read() {
    let (mut memory, store) = anonymous();
    let fact = artifact("test/attribute", "entity:1", Value::Boolean(false));
    memory.assert_all(&store, vec![fact.clone()]);
    let key = *memory.index.keys().next().unwrap();
    let mut datum = Datum::of_artifact(&fact);
    datum.value_type = 99;
    memory.index.insert(key, State::Added(datum));
    let index = memory.index.clone();
    let update = fact.update(Value::Boolean(true));
    memory.root();
    let root = memory.root().unwrap();
    memory.revisions.insert(refer(&Revision::new(&root)), Revision::new(&root));
    assert_eq!(
        memory.commit(&store, vec![Instruction::Assert(update)]),
        Err(DialogArtifactsError::InvalidValue(99))
    );
    assert_eq!(memory.index, index);
    assert_eq!(memory.read(store.stream_all()), Err(DialogArtifactsError::InvalidValue(99)));
}

#[test]
fn an_import_skips_and_reports_invalid_rows() {
    let (mut memory, store) = anonymous();
    let data = generate_data(0, 1);
    memory.rows = vec![Ok(data[0].clone()), Err("bad row".to_string()), Ok(data[1].clone())].into();
    memory.import(&store).unwrap();
    assert_eq!(memory.messages, vec!["Skipping invalid datum: bad row".to_string()]);
    assert_eq!(memory.read(store.stream_all()).unwrap().len(), 2);
}

#[test]
fn a_row_that_cannot_be_written_ends_the_export() {
    let (mut memory, store) = anonymous();
    memory.assert_all(&store, generate_data(0, 1));
    let mut reading = store.export();
    while let Some(request) = reading.request() {
        let reply = match request {
            Request::WriteRow(_) => Reply::RowFailed("full".to_string()),
            request => memory.answer(request),
        };
        reading = reading.resume(reply);
    }
    match reading.phase() {
        ReadingPhase::Finished(outcome) => {
            assert_eq!(*outcome, Err(DialogArtifactsError::Export("full".to_string())))
        }
        _ => panic!(),
    }
}

#[test]
fn a_selector_of_all_three_spans_no_key() {
    let (mut memory, store) = anonymous();
    memory.assert_all(&store, generate_data(0, 1));
    let selector = ArtifactSelector::new()
        .the(attribute("item/name"))
        .of(entity("entity:0"))
        .is(text("name0"));
    assert_eq!(memory.read(store.select(selector)), Ok(vec![]));
}

#[test]
fn an_anonymous_store_has_a_random_identifier() {
    let (_, a) = anonymous();
    let (_, b) = anonymous();
    assert_eq!(a.identifier().len(), 32);
    assert!(a.identifier().chars().all(|c| c.is_ascii_alphanumeric()));
    assert_ne!(a.identifier(), b.identifier());
}

#[test]
fn a_store_is_there_once_it_is_opened() {
    let open = Artifacts::<u8>::open("x".to_string());
    assert!(matches!(open.phase(), OpenPhase::Pointer));
    assert!(Artifacts::opened(open, 7u8).is_none());
    let open = Artifacts::<u8>::open("x".to_string())
        .resume(Reply::Block(None))
        .resume(Reply::Done);
    let store = Artifacts::opened(open, 7u8).unwrap().unwrap();
    assert_eq!(*store.index(), 7);
    let clone = store.clone();
    assert_eq!(clone.identifier(), "x");
    assert!(std::sync::Arc::ptr_eq(&clone.index(), &store.index()));
}

#[test]
fn a_reply_that_does_not_answer_changes_nothing() {
    let open = Artifacts::<()>::open("x".to_string()).resume(Reply::Done);
    assert!(matches!(open.phase(), OpenPhase::Pointer));
    let reset = Reset::start([1; 32], None).resume(Reply::Root(None));
    assert!(matches!(reset.phase(), ResetPhase::Pointer));
    let commit = Commit::start([1; 32]).resume(Reply::Done);
    assert!(matches!(commit.phase(), CommitPhase::Base(RevisionQuery::Root)));
}

fn named(memory: &mut Memory, identifier: &str) -> Artifacts<()> {
    memory.open(Artifacts::<()>::open(identifier.to_string())).unwrap()
}

#[test]
fn stores_of_one_identifier_see_commits_and_resets_of_each_other() {
    let mut memory = Memory::default();
    let a = named(&mut memory, "shared");
    let b = named(&mut memory, "shared");
    let mut index_of_b = memory.index.clone();

    let first = memory.assert_all(&a, generate_data(0, 2));
    let expected = memory.read(a.stream_all()).unwrap();
    std::mem::swap(&mut memory.index, &mut index_of_b);
    assert_eq!(memory.revision(&b), Ok(NULL_REVISION_HASH));
    assert_eq!(memory.reset(&b, None), Ok(()));
    assert_eq!(memory.revision(&b), Ok(first));
    assert_eq!(memory.read(b.stream_all()).unwrap(), expected);

    std::mem::swap(&mut memory.index, &mut index_of_b);
    let second = memory.assert_all(&a, generate_data(2, 2));
    assert_ne!(first, second);
    assert_eq!(memory.reset(&a, Some(first)), Ok(()));
    assert_eq!(memory.revision(&a), Ok(first));
    memory.reset(&a, Some(second)).unwrap();
    let expected = memory.read(a.stream_all()).unwrap();
    std::mem::swap(&mut memory.index, &mut index_of_b);
    assert_eq!(memory.reset(&b, None), Ok(()));
    assert_eq!(memory.revision(&b), Ok(second));
    assert_eq!(memory.read(b.stream_all()).unwrap(), expected);
    assert_eq!(expected.len(), 8);
}

#[test]
fn a_store_that_is_opened_again_is_at_its_revision() {
    let mut memory = Memory::default();
    let store = named(&mut memory, "again");
    let revision = memory.assert_all(&store, generate_data(0, 1));
    let index = memory.index.clone();
    let other = named(&mut memory, "other");
    assert_eq!(memory.revision(&other), Ok(NULL_REVISION_HASH));
    memory.assert_all(&other, generate_data(7, 1));
    let store = named(&mut memory, "again");
    assert_eq!(memory.revision(&store), Ok(revision));
    assert_eq!(memory.index, index);
}

#[test]
fn an_opening_that_fails_changes_nothing_in_the_storage() {
    let mut memory = Memory::default();
    let store = named(&mut memory, "x");
    memory.assert_all(&store, generate_data(0, 1));
    let blocks = memory.blocks.clone();
    for at in 0..3 {
        memory.log.clear();
        memory.fail_at = Some(at);
        assert_eq!(
            memory.open(Artifacts::<()>::open("x".to_string())).err(),
            Some(DialogArtifactsError::Storage("no".to_string()))
        );
        assert_eq!(memory.blocks, blocks);
        assert_eq!(memory.revisions.len(), 1);
    }
}

#[test]
fn a_reading_that_fails_has_handed_out_the_front() {
    let (mut memory, store) = anonymous();
    memory.assert_all(&store, generate_data(0, 2));
    let all = memory.read(store.stream_all()).unwrap();
    // The scan, then an entry and an artifact in turn, then the third entry.
    for (at, expected) in [(0, 0), (1, 0), (3, 1), (5, 2), (9, 4)] {
        memory.log.clear();
        memory.fail_at = Some(at);
        assert_eq!(
            memory.read(store.stream_all()),
            Err(DialogArtifactsError::Storage("no".to_string()))
        );
        assert_eq!(memory.output, all[..expected]);
        assert_eq!(memory.log.len(), at + 1);
    }
}

#[test]
fn a_failing_import_falls_back_and_reports_the_first_failure() {
    let mut memory = Memory::default();
    let other = named(&mut memory, "other");
    memory.assert_all(&other, generate_data(9, 1));
    let store = named(&mut memory, "x");
    let revision = memory.assert_all(&store, generate_data(0, 1));
    let index = memory.index.clone();
    let blocks = memory.blocks.clone();
    memory.rows = generate_data(1, 1).into_iter().map(Ok).collect();
    memory.log.clear();
    // The root, its reference, a row, then the first entry.
    memory.fail_at = Some(3);
    assert_eq!(
        memory.import(&store),
        Err(DialogArtifactsError::Storage("no".to_string()))
    );
    assert_eq!(memory.log[3], "SetEntry");
    assert_eq!(memory.index, index);
    assert_eq!(memory.blocks, blocks);
    memory.fail_at = None;
    assert_eq!(memory.revision(&store), Ok(revision));
}

#[test]
fn an_import_ends_with_the_error_of_the_row_that_cannot_be_asserted() {
    let (mut memory, store) = anonymous();
    let fact = artifact("test/attribute", "entity:1", Value::Boolean(false));
    memory.assert_all(&store, vec![fact.clone()]);
    let key = *memory.index.keys().next().unwrap();
    let mut datum = Datum::of_artifact(&fact);
    datum.value_type = 99;
    memory.index.insert(key, State::Added(datum));
    let index = memory.index.clone();
    let root = memory.root().unwrap();
    memory.revisions.insert(refer(&Revision::new(&root)), Revision::new(&root));
    memory.rows = vec![Ok(fact.update(Value::Boolean(true)))].into();
    assert_eq!(memory.import(&store), Err(DialogArtifactsError::InvalidValue(99)));
    assert_eq!(memory.index, index);
}

#[test]
fn a_batch_gives_the_revision_of_its_parts() {
    let first = artifact("test/attribute", "entity:1", Value::Boolean(false));
    let front = || vec![Instruction::Assert(first.clone())];
    let rest = || {
        vec![
            Instruction::Assert(first.clone().update(Value::Boolean(true))),
            Instruction::Retract(artifact("test/other", "entity:1", text("gone"))),
        ]
    };
    let (mut memory, one) = anonymous();
    let whole = front().into_iter().chain(rest()).collect();
    let expected = memory.commit(&one, whole);
    let (mut other, two) = anonymous();
    let between = other.commit(&two, front());
    assert!(between.is_ok() && between != expected);
    assert_eq!(other.commit(&two, rest()), expected);
    assert_eq!(other.index, memory.index);
}

#[test]
fn asserting_again_gives_the_same_revision() {
    let fact = artifact("test/attribute", "entity:1", text("fact"));
    let (mut memory, one) = anonymous();
    let expected = memory.commit(&one, vec![Instruction::Assert(fact.clone())]);
    assert!(expected.is_ok());
    assert_eq!(memory.commit(&one, vec![Instruction::Assert(fact.clone())]), expected);
    let (mut other, two) = anonymous();
    let instructions = vec![
        Instruction::Assert(fact.clone()),
        Instruction::Retract(fact.clone()),
        Instruction::Assert(fact),
    ];
    assert_eq!(other.commit(&two, instructions), expected);
    assert_eq!(other.index, memory.index);
}

#[test]
fn an_identifier_is_what_the_drawn_bytes_spell() {
    let drawn = b"0123456789ABCDEFGHIJKLMNOPabcdef";
    assert_eq!(identifier_of(drawn), "0123456789ABCDEFGHIJKLMNOPabcdef");
}

#[test]
fn the_index_is_held_only_while_it_is_needed() {
    let commit = Commit::start([1; 32]);
    assert_eq!(commit.access(), Access::Read);
    let commit = commit.resume(Reply::Root(None));
    assert_eq!(commit.access(), Access::Write);
    let commit = commit.resume(Reply::Instruction(None)).resume(Reply::Root(None));
    assert!(matches!(commit.phase(), CommitPhase::Point(_)));
    let commit = commit.resume(Reply::Failed(DialogArtifactsError::Storage("no".to_string())));
    assert!(matches!(commit.phase(), CommitPhase::Rollback(..)));
    assert_eq!(commit.access(), Access::Free);
    let commit = commit.resume(Reply::Done);
    assert_eq!(commit.access(), Access::Write);
    assert_eq!(commit.resume(Reply::Done).access(), Access::Free);
    assert_eq!(Reset::start([1; 32], None).access(), Access::Free);
}
