use mrea_patch::errors::FormatError;
use mrea_patch::patcher::Archive;
use mrea_patch::patcher::FourCC;
use mrea_patch::patcher::Pak;
use mrea_patch::patcher::PatchEngine;
use mrea_patch::patcher::PatchError;
use mrea_patch::patcher::PatchKey;
use mrea_patch::patcher::Resource;
use mrea_patch::patcher::ResourceKind;
use mrea_patch::patcher::ResourcePatch;

struct MarkingPatch {
    invocations: usize,
}

impl ResourcePatch for MarkingPatch {
    fn apply(&mut self, resource: &mut Resource) -> Result<(), String> {
        self.invocations += 1;
        if let ResourceKind::Unknown(bytes, _) = &mut resource.kind {
            bytes.push(0xEE);
        }
        Ok(())
    }
}

struct FailingPatch;

impl ResourcePatch for FailingPatch {
    fn apply(&mut self, _resource: &mut Resource) -> Result<(), String> {
        Err("callback declined".to_string())
    }
}

fn resource(id: u32, tag: &[u8; 4], payload: Vec<u8>) -> Resource {
    Resource {
        compressed: false,
        file_id: id,
        kind: ResourceKind::Unknown(payload, FourCC::from_bytes(tag)),
    }
}

fn key(paks: &[&str], id: u32, tag: &[u8; 4]) -> PatchKey {
    PatchKey {
        pak_names: paks.iter().map(|p| p.as_bytes().to_vec()).collect(),
        file_id: id,
        fourcc: FourCC::from_bytes(tag),
    }
}

fn one_pak_archive() -> Archive {
    Archive {
        paks: vec![Pak {
            name: b"X".to_vec(),
            resources: vec![
                resource(42, b"ABCD", vec![1, 2, 3]),
                resource(7, b"ABCD", vec![4, 5]),
                resource(42, b"EFGH", vec![6]),
            ],
        }],
    }
}

#[test]
fn registered_patch_applies_exactly_once() {
    let mut archive = one_pak_archive();
    let mut engine = PatchEngine::new();
    engine.add_resource_patch(key(&["X"], 42, b"ABCD"), MarkingPatch { invocations: 0 });
    let log = engine.run(&mut archive).expect("run should succeed");
    assert_eq!(log.len(), 1);
    assert_eq!(log[0].patch, 0);
    assert_eq!(log[0].pak, 0);
    assert_eq!(log[0].resource, 0);
    assert_eq!(engine.patches[0].1.invocations, 1);
    // The matched resource was handed to the callback...
    assert_eq!(
        archive.paks[0].resources[0].kind,
        ResourceKind::Unknown(vec![1, 2, 3, 0xEE], FourCC::from_bytes(b"ABCD"))
    );
    // ...and every other resource is byte-identical.
    assert_eq!(
        archive.paks[0].resources[1],
        resource(7, b"ABCD", vec![4, 5])
    );
    assert_eq!(
        archive.paks[0].resources[2],
        resource(42, b"EFGH", vec![6])
    );
}

#[test]
fn unmatched_patch_reported_at_end_of_run() {
    let mut archive = one_pak_archive();
    let mut engine = PatchEngine::new();
    engine.add_resource_patch(key(&["X"], 999, b"ABCD"), MarkingPatch { invocations: 0 });
    assert_eq!(
        engine.run(&mut archive),
        Err(PatchError::NeverApplied(0))
    );
    assert_eq!(engine.patches[0].1.invocations, 0);
}

#[test]
fn pak_name_matching_is_set_membership() {
    let mut archive = one_pak_archive();
    let mut engine = PatchEngine::new();
    engine.add_resource_patch(
        key(&["Other", "X"], 42, b"ABCD"),
        MarkingPatch { invocations: 0 },
    );
    engine.run(&mut archive).expect("run should succeed");
    assert_eq!(engine.patches[0].1.invocations, 1);

    let mut archive2 = one_pak_archive();
    let mut engine2 = PatchEngine::new();
    engine2.add_resource_patch(key(&["Other"], 42, b"ABCD"), MarkingPatch { invocations: 0 });
    assert_eq!(
        engine2.run(&mut archive2),
        Err(PatchError::NeverApplied(0))
    );
}

#[test]
fn failing_callback_aborts_run() {
    let mut archive = one_pak_archive();
    let mut engine = PatchEngine::new();
    engine.add_resource_patch(key(&["X"], 42, b"ABCD"), FailingPatch);
    assert_eq!(
        engine.run(&mut archive),
        Err(PatchError::Failed("callback declined".to_string()))
    );
}

#[test]
fn earliest_registered_key_wins() {
    let mut archive = one_pak_archive();
    let mut engine = PatchEngine::new();
    engine.add_resource_patch(key(&["X"], 42, b"ABCD"), MarkingPatch { invocations: 0 });
    engine.add_resource_patch(key(&["X"], 7, b"ABCD"), MarkingPatch { invocations: 0 });
    let log = engine.run(&mut archive).expect("run should succeed");
    assert_eq!(log.len(), 2);
    assert_eq!(engine.patches[0].1.invocations, 1);
    assert_eq!(engine.patches[1].1.invocations, 1);
}

#[test]
fn area_promotion_requires_room_tag() {
    let mut kind = ResourceKind::Unknown(vec![0, 1, 2], FourCC::from_bytes(b"TXTR"));
    assert_eq!(
        kind.convert_to_area(),
        Err(FormatError::WrongSectionKind)
    );
    assert_eq!(
        kind,
        ResourceKind::Unknown(vec![0, 1, 2], FourCC::from_bytes(b"TXTR"))
    );
}
