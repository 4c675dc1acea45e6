use crate::errors::FormatError;
use crate::mrea::Mrea;
use vstd::prelude::*;

verus! {

/// A four-byte ASCII resource type tag.
#[derive(Clone, Copy, Debug, PartialEq, Eq, Structural, Hash)]
pub struct FourCC(pub u8, pub u8, pub u8, pub u8);

impl FourCC {
    /// Build a tag from its four bytes.
    pub fn from_bytes(bytes: &[u8]) -> (r: FourCC)
        requires
            bytes@.len() == 4,
        ensures
            r == (FourCC(bytes@[0], bytes@[1], bytes@[2], bytes@[3])),
    {
        FourCC(
            *vstd::slice::slice_index_get(bytes, 0),
            *vstd::slice::slice_index_get(bytes, 1),
            *vstd::slice::slice_index_get(bytes, 2),
            *vstd::slice::slice_index_get(bytes, 3),
        )
    }
}

/// The tag of a room container resource.
pub open spec fn spec_mrea_fourcc() -> FourCC {
    FourCC(0x4D, 0x52, 0x45, 0x41)
}

/// The tag of a room container resource (`MREA` in ASCII).
pub fn mrea_fourcc() -> (r: FourCC)
    ensures
        r == spec_mrea_fourcc(),
{
    FourCC(0x4D, 0x52, 0x45, 0x41)
}

/// The payload of one addressable resource: an opaque byte range as
/// loaded, a decoded room container after promotion, or bytes generated
/// outside the archive carrying their own tag.
#[derive(Debug, Clone, PartialEq)]
pub enum ResourceKind {
    Unknown(Vec<u8>, FourCC),
    Area(Mrea),
    External(Vec<u8>, FourCC),
}

impl ResourceKind {
    /// The resource type tag of this payload.
    pub open spec fn spec_fourcc(self) -> FourCC {
        match self {
            ResourceKind::Unknown(_, fc) => fc,
            ResourceKind::Area(_) => spec_mrea_fourcc(),
            ResourceKind::External(_, fc) => fc,
        }
    }

    /// Exec form of [`Self::spec_fourcc`].
    pub fn fourcc(&self) -> (r: FourCC)
        ensures
            r == self.spec_fourcc(),
    {
        match self {
            ResourceKind::Unknown(_, fc) => *fc,
            ResourceKind::Area(_) => mrea_fourcc(),
            ResourceKind::External(_, fc) => *fc,
        }
    }

    /// Promote an opaque room-container payload to its decoded form.
    /// Promoting an already-decoded payload leaves it untouched; a payload
    /// whose tag is not a room's is refused without being touched.
    pub fn convert_to_area(&mut self) -> (r: Result<(), FormatError>)
        ensures
            r is Ok <==> (*final(self)) is Area,
            (*old(self)) is Area ==> r is Ok && *final(self) == *old(self),
            r is Err ==> *final(self) == *old(self),
            (*old(self)) matches ResourceKind::Unknown(b, fc) ==> ((*final(self))
                matches ResourceKind::Area(m) ==> m.wf() && m.all_raw() && m.spec_serialize()
                == b@),
    {
        match self {
            ResourceKind::Unknown(b, fc) => {
                if !(fc.0 == 0x4D && fc.1 == 0x52 && fc.2 == 0x45 && fc.3 == 0x41) {
                    return Err(FormatError::WrongSectionKind);
                }
                if b.len() > 0xFFFF_FF00 {
                    return Err(FormatError::OversizedRecord);
                }
                match Mrea::read_from(b.as_slice()) {
                    Ok(m) => {
                        *self = ResourceKind::Area(m);
                        Ok(())
                    },
                    Err(e) => Err(e),
                }
            },
            ResourceKind::Area(_) => Ok(()),
            ResourceKind::External(_, _) => Err(FormatError::WrongSectionKind),
        }
    }
}

/// One individually addressable blob of the archive, keyed inside its pak
/// by a 32-bit id and a four-byte type tag.  A resource is created once
/// per archive load, mutated at most once per registered patch key, and
/// never deleted.
#[derive(Debug, Clone, PartialEq)]
pub struct Resource {
    pub compressed: bool,
    pub file_id: u32,
    pub kind: ResourceKind,
}

/// One top-level container of the archive: a name and its resources.
#[derive(Debug, Clone, PartialEq)]
pub struct Pak {
    pub name: Vec<u8>,
    pub resources: Vec<Resource>,
}

/// The whole archive as enumerated for patching.
#[derive(Debug, Clone, PartialEq)]
pub struct Archive {
    pub paks: Vec<Pak>,
}

/// The composite key a patch registers for: a set of enclosing pak names,
/// a numeric id, and a type tag.  Pak matching is set membership.
#[derive(Debug, Clone, PartialEq)]
pub struct PatchKey {
    pub pak_names: Vec<Vec<u8>>,
    pub file_id: u32,
    pub fourcc: FourCC,
}

/// Whether a key selects a resource with the given id and tag inside a pak
/// of the given name.
pub open spec fn spec_key_matches(key: PatchKey, name: Seq<u8>, id: u32, fourcc: FourCC) -> bool {
    &&& exists|i: int| 0 <= i < key.pak_names@.len() && (#[trigger] key.pak_names@[i])@ == name
    &&& key.file_id == id
    &&& key.fourcc == fourcc
}

/// An error raised while running registered patches.
#[derive(Debug, Clone, PartialEq)]
pub enum PatchError {
    /// A callback hit a structural or format error.
    Format(FormatError),
    /// The registered patch with this index matched no resource by the end
    /// of the run.
    NeverApplied(usize),
    /// A callback failed with its own message.
    Failed(String),
}

/// One patch callback.  The engine hands the callback mutable access to
/// each resource its key selects; a failing callback aborts the whole run.
pub trait ResourcePatch {
    fn apply(&mut self, resource: &mut Resource) -> Result<(), String>;
}

/// One callback invocation made by a run: which registered patch was
/// applied to which resource of which pak.
#[derive(Clone, Copy, Debug, PartialEq, Eq, Structural)]
pub struct PatchApplication {
    pub patch: usize,
    pub pak: usize,
    pub resource: usize,
}

/// The first registered key, scanning from `i`, that selects the given
/// resource coordinates; `None` when none does.
pub open spec fn spec_first_match_from<P>(
    patches: Seq<(PatchKey, P)>,
    i: int,
    name: Seq<u8>,
    id: u32,
    fourcc: FourCC,
) -> Option<int>
    decreases patches.len() - i,
{
    if i < 0 || i >= patches.len() {
        None
    } else if spec_key_matches(patches[i].0, name, id, fourcc) {
        Some(i)
    } else {
        spec_first_match_from(patches, i + 1, name, id, fourcc)
    }
}

/// The first registered key that selects the given resource coordinates.
pub open spec fn spec_first_match<P>(
    patches: Seq<(PatchKey, P)>,
    name: Seq<u8>,
    id: u32,
    fourcc: FourCC,
) -> Option<int> {
    spec_first_match_from(patches, 0, name, id, fourcc)
}

/// The patch (if any) that a run dispatches to resource `ri` of pak `pi`.
pub open spec fn spec_res_match<P>(
    patches: Seq<(PatchKey, P)>,
    archive: Archive,
    pi: int,
    ri: int,
) -> Option<int> {
    spec_first_match(
        patches,
        archive.paks@[pi].name@,
        archive.paks@[pi].resources@[ri].file_id,
        archive.paks@[pi].resources@[ri].kind.spec_fourcc(),
    )
}


/// Whether the log records at least one invocation of patch `k`.
pub open spec fn spec_log_covers_patch(log: Seq<PatchApplication>, k: int) -> bool {
    exists|j: int| 0 <= j < log.len() && (#[trigger] log[j]).patch == k
}

/// Scanning for the first matching key looks only at the keys, never at
/// the callbacks, so callback state changes do not move the match.
pub proof fn lemma_first_match_keys_eq<P>(
    p1: Seq<(PatchKey, P)>,
    p2: Seq<(PatchKey, P)>,
    i: int,
    name: Seq<u8>,
    id: u32,
    fourcc: FourCC,
)
    requires
        p1.len() == p2.len(),
        forall|k: int| 0 <= k < p1.len() ==> (#[trigger] p1[k]).0 == p2[k].0,
    ensures
        spec_first_match_from(p1, i, name, id, fourcc) == spec_first_match_from(
            p2,
            i,
            name,
            id,
            fourcc,
        ),
    decreases p1.len() - i,
{
    if 0 <= i < p1.len() {
        assert(p1[i].0 == p2[i].0);
        lemma_first_match_keys_eq(p1, p2, i + 1, name, id, fourcc);
    }
}

/// The resource-addressed patch dispatcher: patches are registered under
/// composite keys and then applied in one pass over the archive's resource
/// enumeration.
pub struct PatchEngine<P> {
    pub patches: Vec<(PatchKey, P)>,
}

impl<P: ResourcePatch> PatchEngine<P> {
    /// An engine with no patches registered.
    pub fn new() -> (r: PatchEngine<P>)
        ensures
            r.patches@.len() == 0,
    {
        PatchEngine { patches: Vec::new() }
    }

    /// Register one patch under a key.  A resource selected by several
    /// registered keys is dispatched to the earliest-registered one.
    pub fn add_resource_patch(&mut self, key: PatchKey, patch: P)
        ensures
            final(self).patches@ == old(self).patches@.push((key, patch)),
    {
        self.patches.push((key, patch));
    }

    fn key_matches(key: &PatchKey, name: &Vec<u8>, id: u32, fourcc: FourCC) -> (r: bool)
        ensures
            r == spec_key_matches(*key, name@, id, fourcc),
    {
        if key.file_id != id {
            return false;
        }
        if !(key.fourcc == fourcc) {
            return false;
        }
        let mut i: usize = 0;
        while i < key.pak_names.len()
            invariant
                i <= key.pak_names@.len(),
                key.file_id == id,
                key.fourcc == fourcc,
                forall|j: int| 0 <= j < i ==> (#[trigger] key.pak_names@[j])@ != name@,
            decreases key.pak_names@.len() - i,
        {
            if key.pak_names[i] == *name {
                proof {
                    assert(key.pak_names@[i as int]@ =~= name@);
                }
                return true;
            }
            i = i + 1;
        }
        false
    }

    fn find_first_match(&self, name: &Vec<u8>, id: u32, fourcc: FourCC) -> (r: Option<usize>)
        ensures
            r matches Some(k) ==> (k as int) < self.patches@.len() && Some(k as int)
                == spec_first_match(self.patches@, name@, id, fourcc),
            r is None <==> spec_first_match(self.patches@, name@, id, fourcc) is None,
    {
        let mut k: usize = 0;
        while k < self.patches.len()
            invariant
                k <= self.patches@.len(),
                spec_first_match(self.patches@, name@, id, fourcc) == spec_first_match_from(
                    self.patches@,
                    k as int,
                    name@,
                    id,
                    fourcc,
                ),
            decreases self.patches@.len() - k,
        {
            if Self::key_matches(&self.patches[k].0, name, id, fourcc) {
                return Some(k);
            }
            k = k + 1;
        }
        None
    }

    /// Walk the archive's resource enumeration once, handing each resource
    /// whose coordinates match a registered key to that key's callback with
    /// mutable access.  Unmatched resources are left completely untouched.
    /// The first failing callback aborts the run with its error; a key that
    /// matched nothing by the end of the run is reported as an error, never
    /// silently ignored.  On success the returned log lists every callback
    /// invocation, in enumeration order, one entry per matched resource.
    #[verifier::rlimit(100)]
    #[verifier::spinoff_prover]
    pub fn run(&mut self, archive: &mut Archive) -> (r: Result<
        Vec<PatchApplication>,
        PatchError,
    >)
        ensures
            final(self).patches@.len() == old(self).patches@.len(),
            forall|k: int|
                0 <= k < old(self).patches@.len() ==> (#[trigger] final(self).patches@[k]).0
                    == old(self).patches@[k].0,
            final(archive).paks@.len() == old(archive).paks@.len(),
            forall|pi: int|
                0 <= pi < old(archive).paks@.len() ==> (#[trigger] final(archive).paks@[pi]).name@
                    == old(archive).paks@[pi].name@ && final(archive).paks@[pi].resources@.len()
                    == old(archive).paks@[pi].resources@.len(),
            forall|pi: int, ri: int|
                0 <= pi < old(archive).paks@.len() && 0 <= ri < old(
                    archive,
                ).paks@[pi].resources@.len() && spec_res_match(
                    old(self).patches@,
                    *old(archive),
                    pi,
                    ri,
                ) is None ==> #[trigger] final(archive).paks@[pi].resources@[ri] == old(
                    archive,
                ).paks@[pi].resources@[ri],
            r matches Ok(log) ==> {
                &&& forall|j: int|
                    0 <= j < log@.len() ==> {
                        let a = #[trigger] log@[j];
                        &&& 0 <= a.pak < old(archive).paks@.len()
                        &&& 0 <= a.resource < old(archive).paks@[a.pak as int].resources@.len()
                        &&& Some(a.patch as int) == spec_res_match(
                            old(self).patches@,
                            *old(archive),
                            a.pak as int,
                            a.resource as int,
                        )
                    }
                &&& forall|j1: int, j2: int|
                    0 <= j1 < j2 < log@.len() ==> ((#[trigger] log@[j1]).pak, log@[j1].resource)
                        != ((#[trigger] log@[j2]).pak, log@[j2].resource)
                &&& forall|pi: int, ri: int|
                    0 <= pi < old(archive).paks@.len() && 0 <= ri < old(
                        archive,
                    ).paks@[pi].resources@.len() && (#[trigger] spec_res_match(
                        old(self).patches@,
                        *old(archive),
                        pi,
                        ri,
                    )) is Some ==> exists|j: int|
                        0 <= j < log@.len() && (#[trigger] log@[j]).pak == pi && log@[j].resource
                            == ri
                &&& forall|k: int|
                    0 <= k < old(self).patches@.len() ==> #[trigger] spec_log_covers_patch(
                        log@,
                        k,
                    )
            },
            r matches Err(e) ==> (e matches PatchError::NeverApplied(k) ==> {
                &&& (k as int) < old(self).patches@.len()
                &&& forall|pi: int, ri: int|
                    0 <= pi < old(archive).paks@.len() && 0 <= ri < old(
                        archive,
                    ).paks@[pi].resources@.len() ==> #[trigger] spec_res_match(
                        old(self).patches@,
                        *old(archive),
                        pi,
                        ri,
                    ) != Some(k as int)
            }),
    {
        let npatches = self.patches.len();
        let mut applied: Vec<bool> = Vec::new();
        let mut k0: usize = 0;
        while k0 < npatches
            invariant
                applied@.len() == k0,
                k0 <= npatches,
                forall|k: int| 0 <= k < k0 ==> #[trigger] applied@[k] == false,
            decreases npatches - k0,
        {
            applied.push(false);
            k0 = k0 + 1;
        }
        let mut log: Vec<PatchApplication> = Vec::new();
        let npaks = archive.paks.len();
        let mut pi: usize = 0;
        while pi < npaks
            invariant
                npaks == archive.paks@.len(),
                npatches == self.patches@.len(),
                applied@.len() == npatches,
                pi <= npaks,
                self.patches@.len() == old(self).patches@.len(),
                forall|k: int|
                    0 <= k < old(self).patches@.len() ==> (#[trigger] self.patches@[k]).0 == old(
                        self,
                    ).patches@[k].0,
                archive.paks@.len() == old(archive).paks@.len(),
                forall|p: int|
                    0 <= p < old(archive).paks@.len() ==> (#[trigger] archive.paks@[p]).name@
                        == old(archive).paks@[p].name@ && archive.paks@[p].resources@.len() == old(
                        archive,
                    ).paks@[p].resources@.len(),
                forall|p: int, q: int|
                    0 <= p < old(archive).paks@.len() && 0 <= q < old(
                        archive,
                    ).paks@[p].resources@.len() && (p > pi || (p == pi)) ==> #[trigger] archive.paks@[p].resources@[q]
                        == old(archive).paks@[p].resources@[q],
                forall|p: int, q: int|
                    0 <= p < pi && 0 <= q < old(archive).paks@[p].resources@.len()
                        && spec_res_match(old(self).patches@, *old(archive), p, q) is None
                        ==> #[trigger] archive.paks@[p].resources@[q] == old(
                        archive,
                    ).paks@[p].resources@[q],
                forall|j: int|
                    0 <= j < log@.len() ==> {
                        let a = #[trigger] log@[j];
                        &&& 0 <= a.pak < pi
                        &&& 0 <= a.resource < old(archive).paks@[a.pak as int].resources@.len()
                        &&& Some(a.patch as int) == spec_res_match(
                            old(self).patches@,
                            *old(archive),
                            a.pak as int,
                            a.resource as int,
                        )
                    },
                forall|j1: int, j2: int|
                    0 <= j1 < j2 < log@.len() ==> ((#[trigger] log@[j1]).pak, log@[j1].resource)
                        != ((#[trigger] log@[j2]).pak, log@[j2].resource),
                forall|p: int, q: int|
                    0 <= p < pi && 0 <= q < old(archive).paks@[p].resources@.len() && (
                    #[trigger] spec_res_match(old(self).patches@, *old(archive), p, q)) is Some
                        ==> exists|j: int|
                        0 <= j < log@.len() && (#[trigger] log@[j]).pak == p && log@[j].resource
                            == q,
                forall|k: int|
                    0 <= k < npatches ==> ((#[trigger] applied@[k] == true)
                        <==> spec_log_covers_patch(log@, k)),
            decreases npaks - pi,
        {
            let nres = archive.paks[pi].resources.len();
            let mut ri: usize = 0;
            while ri < nres
                invariant
                    0 <= pi < npaks,
                    npaks == archive.paks@.len(),
                    npatches == self.patches@.len(),
                    applied@.len() == npatches,
                    ri <= nres,
                    nres == archive.paks@[pi as int].resources@.len(),
                    self.patches@.len() == old(self).patches@.len(),
                    forall|k: int|
                        0 <= k < old(self).patches@.len() ==> (#[trigger] self.patches@[k]).0
                            == old(self).patches@[k].0,
                    archive.paks@.len() == old(archive).paks@.len(),
                    forall|p: int|
                        0 <= p < old(archive).paks@.len() ==> (#[trigger] archive.paks@[p]).name@
                            == old(archive).paks@[p].name@ && archive.paks@[p].resources@.len()
                            == old(archive).paks@[p].resources@.len(),
                    forall|p: int, q: int|
                        0 <= p < old(archive).paks@.len() && 0 <= q < old(
                            archive,
                        ).paks@[p].resources@.len() && (p > pi || (p == pi && q >= ri))
                            ==> #[trigger] archive.paks@[p].resources@[q] == old(
                            archive,
                        ).paks@[p].resources@[q],
                    forall|p: int, q: int|
                        0 <= p < old(archive).paks@.len() && 0 <= q < old(
                            archive,
                        ).paks@[p].resources@.len() && (p < pi || (p == pi && q < ri))
                            && spec_res_match(old(self).patches@, *old(archive), p, q) is None
                            ==> #[trigger] archive.paks@[p].resources@[q] == old(
                            archive,
                        ).paks@[p].resources@[q],
                    forall|j: int|
                        0 <= j < log@.len() ==> {
                            let a = #[trigger] log@[j];
                            &&& 0 <= a.pak < npaks
                            &&& (a.pak as int) < pi || (a.pak as int == pi && (a.resource as int)
                                < ri)
                            &&& 0 <= a.resource < old(
                                archive,
                            ).paks@[a.pak as int].resources@.len()
                            &&& Some(a.patch as int) == spec_res_match(
                                old(self).patches@,
                                *old(archive),
                                a.pak as int,
                                a.resource as int,
                            )
                        },
                    forall|j1: int, j2: int|
                        0 <= j1 < j2 < log@.len() ==> ((#[trigger] log@[j1]).pak,
                        log@[j1].resource) != ((#[trigger] log@[j2]).pak, log@[j2].resource),
                    forall|p: int, q: int|
                        0 <= p < old(archive).paks@.len() && 0 <= q < old(
                            archive,
                        ).paks@[p].resources@.len() && (p < pi || (p == pi && q < ri)) && (
                        #[trigger] spec_res_match(old(self).patches@, *old(archive), p, q))
                            is Some ==> exists|j: int|
                            0 <= j < log@.len() && (#[trigger] log@[j]).pak == p
                                && log@[j].resource == q,
                    forall|k: int|
                        0 <= k < npatches ==> ((#[trigger] applied@[k] == true)
                            <==> spec_log_covers_patch(log@, k)),
                decreases nres - ri,
            {
                let (id, fourcc) = {
                    let res = &archive.paks[pi].resources[ri];
                    (res.file_id, res.kind.fourcc())
                };
                let k_opt = {
                    let pak = &archive.paks[pi];
                    self.find_first_match(&pak.name, id, fourcc)
                };
                proof {
                    lemma_first_match_keys_eq(
                        self.patches@,
                        old(self).patches@,
                        0,
                        archive.paks@[pi as int].name@,
                        id,
                        fourcc,
                    );
                    assert(archive.paks@[pi as int].resources@[ri as int] == old(
                        archive,
                    ).paks@[pi as int].resources@[ri as int]);
                }
                match k_opt {
                    Some(k) => {
                        let ghost log0 = log@;
                        let ghost applied0 = applied@;
                        log.push(PatchApplication { patch: k, pak: pi, resource: ri });
                        applied[k] = true;
                        let ghost lastj = log@.len() - 1;
                        proof {
                            assert(log@[lastj] == (PatchApplication {
                                patch: k,
                                pak: pi,
                                resource: ri,
                            }));
                            assert forall|j: int|
                                0 <= j < log@.len() implies {
                                let a = #[trigger] log@[j];
                                &&& 0 <= a.pak < npaks
                                &&& ((a.pak as int) < pi || (a.pak as int == pi && (
                                a.resource as int) <= ri))
                                &&& 0 <= a.resource < old(
                                    archive,
                                ).paks@[a.pak as int].resources@.len()
                                &&& Some(a.patch as int) == spec_res_match(
                                    old(self).patches@,
                                    *old(archive),
                                    a.pak as int,
                                    a.resource as int,
                                )
                            } by {
                                if j < log0.len() {
                                    assert(log@[j] == log0[j]);
                                }
                            }
                            assert forall|j1: int, j2: int|
                                0 <= j1 < j2 < log@.len() implies ((#[trigger] log@[j1]).pak,
                            log@[j1].resource) != ((#[trigger] log@[j2]).pak, log@[j2].resource) by {
                                assert(log@[j1] == log0[j1]);
                                if j2 < log0.len() {
                                    assert(log@[j2] == log0[j2]);
                                }
                            }
                            assert forall|p: int, q: int|
                                0 <= p < old(archive).paks@.len() && 0 <= q < old(
                                archive,
                            ).paks@[p].resources@.len() && (p < pi || (p == pi && q <= ri)) && (
                            #[trigger] spec_res_match(old(self).patches@, *old(archive), p, q))
                                is Some implies exists|j: int|
                                0 <= j < log@.len() && (#[trigger] log@[j]).pak == p
                                    && log@[j].resource == q by {
                                if p == pi as int && q == ri as int {
                                    assert(log@[lastj].pak == p && log@[lastj].resource == q);
                                } else {
                                    let j = choose|j: int|
                                        0 <= j < log0.len() && (#[trigger] log0[j]).pak == p
                                            && log0[j].resource == q;
                                    assert(log@[j] == log0[j]);
                                }
                            }
                            assert forall|kk: int|
                                0 <= kk < npatches implies ((#[trigger] applied@[kk] == true)
                                <==> spec_log_covers_patch(log@, kk)) by {
                                if kk == k {
                                    assert(log@[lastj].patch == kk);
                                } else {
                                    assert(applied@[kk] == applied0[kk]);
                                    if spec_log_covers_patch(log@, kk) {
                                        let j = choose|j: int|
                                            0 <= j < log@.len() && (#[trigger] log@[j]).patch
                                                == kk;
                                        assert(j != lastj);
                                        assert(log@[j] == log0[j]);
                                        assert(spec_log_covers_patch(log0, kk));
                                    }
                                    if spec_log_covers_patch(log0, kk) {
                                        let j = choose|j: int|
                                            0 <= j < log0.len() && (#[trigger] log0[j]).patch
                                                == kk;
                                        assert(log@[j] == log0[j]);
                                        assert(spec_log_covers_patch(log@, kk));
                                    }
                                }
                            }
                        }
                        let entry = &mut self.patches[k];
                        let pak = &mut archive.paks[pi];
                        let res = &mut pak.resources[ri];
                        let ar = entry.1.apply(res);
                        match ar {
                            Ok(u) => u,
                            Err(msg) => {
                                return Err(PatchError::Failed(msg));
                            },
                        };
                    },
                    None => {
                    },
                }
                ri = ri + 1;
            }
            pi = pi + 1;
        }
        let mut k: usize = 0;
        while k < npatches
            invariant
                npatches == applied@.len(),
                k <= npatches,
                npatches == old(self).patches@.len(),
                self.patches@.len() == old(self).patches@.len(),
                forall|kk: int|
                    0 <= kk < old(self).patches@.len() ==> (#[trigger] self.patches@[kk]).0
                        == old(self).patches@[kk].0,
                archive.paks@.len() == old(archive).paks@.len(),
                forall|p: int|
                    0 <= p < old(archive).paks@.len() ==> (#[trigger] archive.paks@[p]).name@
                        == old(archive).paks@[p].name@ && archive.paks@[p].resources@.len()
                        == old(archive).paks@[p].resources@.len(),
                forall|p: int, q: int|
                    0 <= p < old(archive).paks@.len() && 0 <= q < old(
                        archive,
                    ).paks@[p].resources@.len() && spec_res_match(
                        old(self).patches@,
                        *old(archive),
                        p,
                        q,
                    ) is None ==> #[trigger] archive.paks@[p].resources@[q] == old(
                        archive,
                    ).paks@[p].resources@[q],
                forall|kk: int|
                    0 <= kk < npatches ==> ((#[trigger] applied@[kk] == true)
                        <==> spec_log_covers_patch(log@, kk)),
                forall|kk: int| 0 <= kk < k ==> #[trigger] applied@[kk] == true,
                forall|j: int|
                    0 <= j < log@.len() ==> {
                        let a = #[trigger] log@[j];
                        &&& 0 <= a.pak < old(archive).paks@.len()
                        &&& 0 <= a.resource < old(archive).paks@[a.pak as int].resources@.len()
                        &&& Some(a.patch as int) == spec_res_match(
                            old(self).patches@,
                            *old(archive),
                            a.pak as int,
                            a.resource as int,
                        )
                    },
                forall|j1: int, j2: int|
                    0 <= j1 < j2 < log@.len() ==> ((#[trigger] log@[j1]).pak, log@[j1].resource)
                        != ((#[trigger] log@[j2]).pak, log@[j2].resource),
                forall|p: int, q: int|
                    0 <= p < old(archive).paks@.len() && 0 <= q < old(
                        archive,
                    ).paks@[p].resources@.len() && (#[trigger] spec_res_match(
                        old(self).patches@,
                        *old(archive),
                        p,
                        q,
                    )) is Some ==> exists|j: int|
                        0 <= j < log@.len() && (#[trigger] log@[j]).pak == p && log@[j].resource
                            == q,
            decreases npatches - k,
        {
            if !applied[k] {
                proof {
                    assert forall|pi: int, ri: int|
                        0 <= pi < old(archive).paks@.len() && 0 <= ri < old(
                            archive,
                        ).paks@[pi].resources@.len() implies #[trigger] spec_res_match(
                        old(self).patches@,
                        *old(archive),
                        pi,
                        ri,
                    ) != Some(k as int) by {
                        if spec_res_match(old(self).patches@, *old(archive), pi, ri) == Some(
                            k as int,
                        ) {
                            assert(exists|j: int|
                                0 <= j < log@.len() && (#[trigger] log@[j]).pak == pi
                                    && log@[j].resource == ri);
                            let j = choose|j: int|
                                0 <= j < log@.len() && (#[trigger] log@[j]).pak == pi
                                    && log@[j].resource == ri;
                            assert(log@[j].patch == k);
                        }
                    }
                }
                return Err(PatchError::NeverApplied(k));
            }
            k = k + 1;
        }
        proof {
            assert forall|kk: int|
                0 <= kk < old(self).patches@.len() implies #[trigger] spec_log_covers_patch(
                log@,
                kk,
            ) by {
                assert(applied@[kk] == true);
            }
        }
        Ok(log)
    }
}

} // verus!
