//! Snapshot objects: a mapping from branch names to optional targets,
//! kept sorted by raw name bytes, and the snapshot manifest and hash.

use vstd::prelude::*;

use vstd::utf8::encode_utf8;

use crate::encoding::{bytes_eq, bytes_lt, dec_digits, dec_u64, lex_lt, push_bytes};
use crate::error::SwhidError;
use crate::hash::{git_object_hash, hash_git_object};
use crate::swhid::{ObjectType, Swhid};

verus! {

/// What a snapshot branch points at: one of the five object kinds, or
/// another branch by name.
#[derive(Debug, Clone, Copy, PartialEq, Eq, Hash, Structural)]
pub enum SnapshotTargetType {
    Content,
    Directory,
    Revision,
    Release,
    Snapshot,
    Alias,
}

/// The long name of each branch target kind.
pub open spec fn snapshot_type_chars(t: SnapshotTargetType) -> Seq<char> {
    match t {
        SnapshotTargetType::Content => "content"@,
        SnapshotTargetType::Directory => "directory"@,
        SnapshotTargetType::Revision => "revision"@,
        SnapshotTargetType::Release => "release"@,
        SnapshotTargetType::Snapshot => "snapshot"@,
        SnapshotTargetType::Alias => "alias"@,
    }
}

impl SnapshotTargetType {
    /// The long name of the target kind.
    pub fn as_str(&self) -> (r: &'static str)
        ensures
            r@ == snapshot_type_chars(*self),
    {
        match self {
            SnapshotTargetType::Content => "content",
            SnapshotTargetType::Directory => "directory",
            SnapshotTargetType::Revision => "revision",
            SnapshotTargetType::Release => "release",
            SnapshotTargetType::Snapshot => "snapshot",
            SnapshotTargetType::Alias => "alias",
        }
    }

    /// Resolves a long name; any other text is rejected.
    pub fn from_str(s: &str) -> (r: Result<Self, SwhidError>)
        ensures
            r matches Ok(t) ==> s@ == snapshot_type_chars(t),
            r matches Err(e) ==> e == SwhidError::InvalidFormat && (forall|t: SnapshotTargetType|
                s@ != snapshot_type_chars(t)),
    {
        let choices = [
            SnapshotTargetType::Content,
            SnapshotTargetType::Directory,
            SnapshotTargetType::Revision,
            SnapshotTargetType::Release,
            SnapshotTargetType::Snapshot,
            SnapshotTargetType::Alias,
        ];
        for i in 0..6usize
            invariant
                forall|k: int| 0 <= k < i ==> s@ != snapshot_type_chars(#[trigger] choices@[k]),
                choices@ == seq![
                    SnapshotTargetType::Content,
                    SnapshotTargetType::Directory,
                    SnapshotTargetType::Revision,
                    SnapshotTargetType::Release,
                    SnapshotTargetType::Snapshot,
                    SnapshotTargetType::Alias,
                ],
        {
            let c = choices[i];
            if crate::strutil::str_eq(s, c.as_str()) {
                return Ok(c);
            }
        }
        assert forall|t: SnapshotTargetType| s@ != snapshot_type_chars(t) by {
            match t {
                SnapshotTargetType::Content => {
                    assert(choices@[0] == SnapshotTargetType::Content);
                }
                SnapshotTargetType::Directory => {
                    assert(choices@[1] == SnapshotTargetType::Directory);
                }
                SnapshotTargetType::Revision => {
                    assert(choices@[2] == SnapshotTargetType::Revision);
                }
                SnapshotTargetType::Release => {
                    assert(choices@[3] == SnapshotTargetType::Release);
                }
                SnapshotTargetType::Snapshot => {
                    assert(choices@[4] == SnapshotTargetType::Snapshot);
                }
                SnapshotTargetType::Alias => {
                    assert(choices@[5] == SnapshotTargetType::Alias);
                }
            }
        }
        Err(SwhidError::InvalidFormat)
    }
}

/// A branch: target bytes (a 20-byte object id, or a branch name for an
/// alias) and the target's kind.
#[derive(Debug, Clone)]
pub struct SnapshotBranch {
    pub target: Vec<u8>,
    pub target_type: SnapshotTargetType,
}

/// The mathematical model of a branch.
pub ghost struct BranchModel {
    pub target: Seq<u8>,
    pub target_type: SnapshotTargetType,
}

impl View for SnapshotBranch {
    type V = BranchModel;

    open spec fn view(&self) -> BranchModel {
        BranchModel { target: self.target@, target_type: self.target_type }
    }
}

/// A non-alias branch must carry a 20-byte object id; an alias carries a
/// name of any length.
pub open spec fn branch_valid(b: BranchModel) -> bool {
    b.target_type != SnapshotTargetType::Alias ==> b.target.len() == 20
}

/// The object kind a non-alias branch target stands for.
pub open spec fn branch_object_type(t: SnapshotTargetType) -> ObjectType {
    match t {
        SnapshotTargetType::Content => ObjectType::Content,
        SnapshotTargetType::Directory => ObjectType::Directory,
        SnapshotTargetType::Revision => ObjectType::Revision,
        SnapshotTargetType::Release => ObjectType::Release,
        SnapshotTargetType::Snapshot => ObjectType::Snapshot,
        SnapshotTargetType::Alias => ObjectType::Snapshot,
    }
}

impl SnapshotBranch {
    /// Builds a branch from raw target bytes and a kind.
    pub fn new(target: Vec<u8>, target_type: SnapshotTargetType) -> (r: Self)
        ensures
            r@ == (BranchModel { target: target@, target_type }),
    {
        SnapshotBranch { target, target_type }
    }

    pub fn target(&self) -> (r: &Vec<u8>)
        ensures
            r@ == self.target@,
    {
        &self.target
    }

    pub fn target_type(&self) -> (r: SnapshotTargetType)
        ensures
            r == self.target_type,
    {
        self.target_type
    }

    /// The identifier of the branch target.  An alias never has one, even
    /// with a non-empty payload; a concrete target has one exactly when
    /// it is 20 bytes wide.
    pub fn swhid(&self) -> (r: Option<Swhid>)
        ensures
            self.target_type == SnapshotTargetType::Alias ==> r is None,
            r is Some <==> (self.target_type != SnapshotTargetType::Alias && self.target@.len()
                == 20),
            r matches Some(w) ==> w.spec_type() == branch_object_type(self.target_type)
                && w.id_bytes() == self.target@ && w.wf(),
    {
        let object_type = match self.target_type {
            SnapshotTargetType::Content => ObjectType::Content,
            SnapshotTargetType::Directory => ObjectType::Directory,
            SnapshotTargetType::Revision => ObjectType::Revision,
            SnapshotTargetType::Release => ObjectType::Release,
            SnapshotTargetType::Snapshot => ObjectType::Snapshot,
            SnapshotTargetType::Alias => {
                return None;
            }
        };
        if self.target.len() == 20 {
            Some(Swhid::new(object_type, self.target.clone()))
        } else {
            None
        }
    }
}

// ---------------------------------------------------------------------------
// The branch list
// ---------------------------------------------------------------------------

/// One named branch slot: a name and an optional branch (`None` is a
/// dangling branch).
pub type BranchEntry = (Vec<u8>, Option<SnapshotBranch>);

/// The model of one slot.
pub type BranchEntryModel = (Seq<u8>, Option<BranchModel>);

/// The models of a branch list.
pub open spec fn branch_models(s: Seq<BranchEntry>) -> Seq<BranchEntryModel> {
    s.map_values(
        |p: BranchEntry|
            (
                p.0@,
                match p.1 {
                    Some(b) => Some(b@),
                    None => None,
                },
            ),
    )
}

/// Names strictly increase in raw byte order, so every name is unique.
pub open spec fn names_sorted(s: Seq<BranchEntryModel>) -> bool {
    forall|i: int, j: int|
        0 <= i < j < s.len() ==> lex_lt((#[trigger] s[i]).0, (#[trigger] s[j]).0)
}

/// Every held branch is valid.
pub open spec fn branches_valid(s: Seq<BranchEntryModel>) -> bool {
    forall|i: int|
        0 <= i < s.len() ==> match (#[trigger] s[i]).1 {
            Some(b) => branch_valid(b),
            None => true,
        }
}

/// Inserting a named slot into a sorted branch list: entries with smaller
/// names stay in front, an entry with the same name is replaced.
pub open spec fn sorted_insert(
    s: Seq<BranchEntryModel>,
    name: Seq<u8>,
    b: Option<BranchModel>,
) -> Seq<BranchEntryModel>
    decreases s.len(),
{
    if s.len() == 0 {
        seq![(name, b)]
    } else if lex_lt(s.first().0, name) {
        seq![s.first()] + sorted_insert(s.drop_first(), name, b)
    } else if s.first().0 == name {
        seq![(name, b)] + s.drop_first()
    } else {
        seq![(name, b)] + s
    }
}

/// Removing a named slot from a sorted branch list.
pub open spec fn sorted_remove(s: Seq<BranchEntryModel>, name: Seq<u8>) -> Seq<BranchEntryModel>
    decreases s.len(),
{
    if s.len() == 0 {
        s
    } else if s.first().0 == name {
        s.drop_first()
    } else {
        seq![s.first()] + sorted_remove(s.drop_first(), name)
    }
}

/// Looking a name up in a branch list: the slot's content, or `None` when
/// the name is absent.
pub open spec fn assoc_get(s: Seq<BranchEntryModel>, name: Seq<u8>) -> Option<Option<BranchModel>>
    decreases s.len(),
{
    if s.len() == 0 {
        None
    } else if s.first().0 == name {
        Some(s.first().1)
    } else {
        assoc_get(s.drop_first(), name)
    }
}

/// The branch list built from slots taken in order, later slots winning
/// on a repeated name.
pub open spec fn build_sorted(inputs: Seq<BranchEntryModel>) -> Seq<BranchEntryModel>
    decreases inputs.len(),
{
    if inputs.len() == 0 {
        Seq::empty()
    } else {
        sorted_insert(build_sorted(inputs.drop_last()), inputs.last().0, inputs.last().1)
    }
}

/// Splitting an insertion at a scanned prefix whose names all sort before
/// the inserted name.
pub proof fn lemma_sorted_insert_skip(
    s: Seq<BranchEntryModel>,
    i: int,
    name: Seq<u8>,
    b: Option<BranchModel>,
)
    requires
        0 <= i <= s.len(),
        forall|k: int| 0 <= k < i ==> lex_lt((#[trigger] s[k]).0, name),
    ensures
        sorted_insert(s, name, b) == s.take(i) + sorted_insert(s.skip(i), name, b),
    decreases i,
{
    if i == 0 {
        assert(s.skip(0) =~= s);
        assert(s.take(0) =~= Seq::<BranchEntryModel>::empty());
        assert(s.take(0) + sorted_insert(s, name, b) =~= sorted_insert(s, name, b));
    } else {
        assert(lex_lt(s.first().0, name));
        crate::encoding::lemma_lex_trichotomy(s.first().0, name);
        assert(s.first().0 != name);
        assert(sorted_insert(s, name, b) == seq![s.first()] + sorted_insert(
            s.drop_first(),
            name,
            b,
        ));
        assert(forall|k: int| 0 <= k < i - 1 ==> s.drop_first()[k] == s[k + 1]);
        lemma_sorted_insert_skip(s.drop_first(), i - 1, name, b);
        assert(s.drop_first().skip(i - 1) =~= s.skip(i));
        assert(seq![s.first()] + s.drop_first().take(i - 1) =~= s.take(i));
        assert(sorted_insert(s, name, b) =~= s.take(i) + sorted_insert(s.skip(i), name, b));
    }
}

/// Splitting a removal at a scanned prefix that does not hold the name.
pub proof fn lemma_sorted_remove_skip(s: Seq<BranchEntryModel>, i: int, name: Seq<u8>)
    requires
        0 <= i <= s.len(),
        forall|k: int| 0 <= k < i ==> (#[trigger] s[k]).0 != name,
    ensures
        sorted_remove(s, name) == s.take(i) + sorted_remove(s.skip(i), name),
    decreases i,
{
    if i == 0 {
        assert(s.skip(0) =~= s);
        assert(s.take(0) + sorted_remove(s, name) =~= sorted_remove(s, name));
    } else {
        assert(s.first().0 != name);
        assert(forall|k: int| 0 <= k < i - 1 ==> s.drop_first()[k] == s[k + 1]);
        lemma_sorted_remove_skip(s.drop_first(), i - 1, name);
        assert(s.drop_first().skip(i - 1) =~= s.skip(i));
        assert(seq![s.first()] + s.drop_first().take(i - 1) =~= s.take(i));
        assert(sorted_remove(s, name) =~= s.take(i) + sorted_remove(s.skip(i), name));
    }
}

/// Splitting a lookup at a scanned prefix that does not hold the name.
pub proof fn lemma_assoc_get_skip(s: Seq<BranchEntryModel>, i: int, name: Seq<u8>)
    requires
        0 <= i <= s.len(),
        forall|k: int| 0 <= k < i ==> (#[trigger] s[k]).0 != name,
    ensures
        assoc_get(s, name) == assoc_get(s.skip(i), name),
    decreases i,
{
    if i > 0 {
        assert(forall|k: int| 0 <= k < i - 1 ==> s.drop_first()[k] == s[k + 1]);
        lemma_assoc_get_skip(s.drop_first(), i - 1, name);
        assert(s.drop_first().skip(i - 1) =~= s.skip(i));
    } else {
        assert(s.skip(0) =~= s);
    }
}

/// Looking up a just-inserted name yields the inserted slot.
pub proof fn lemma_insert_then_get(s: Seq<BranchEntryModel>, name: Seq<u8>, b: Option<BranchModel>)
    requires
        names_sorted(s),
    ensures
        assoc_get(sorted_insert(s, name, b), name) == Some(b),
    decreases s.len(),
{
    let r = sorted_insert(s, name, b);
    if s.len() == 0 {
        assert(r.first() == (name, b));
    } else if lex_lt(s.first().0, name) {
        crate::encoding::lemma_lex_trichotomy(s.first().0, name);
        assert(r.first() == s.first());
        assert(r.first().0 != name);
        assert(names_sorted(s.drop_first())) by {
            assert(forall|k: int| 0 <= k < s.len() - 1 ==> s.drop_first()[k] == s[k + 1]);
        }
        lemma_insert_then_get(s.drop_first(), name, b);
        assert(r.drop_first() =~= sorted_insert(s.drop_first(), name, b));
    } else {
        assert(r.first() == (name, b));
    }
}

/// Removing a name that was just inserted into a list that did not hold
/// it restores the list, so the identifier recomputed afterwards is the
/// one from before.
pub proof fn lemma_insert_then_remove(
    s: Seq<BranchEntryModel>,
    name: Seq<u8>,
    b: Option<BranchModel>,
)
    requires
        names_sorted(s),
        assoc_get(s, name) is None,
    ensures
        sorted_remove(sorted_insert(s, name, b), name) == s,
    decreases s.len(),
{
    let r = sorted_insert(s, name, b);
    if s.len() == 0 {
        assert(r.first() == (name, b));
        assert(sorted_remove(r, name) =~= s);
    } else if lex_lt(s.first().0, name) {
        crate::encoding::lemma_lex_trichotomy(s.first().0, name);
        assert(r.first() == s.first());
        assert(r.first().0 != name);
        assert(names_sorted(s.drop_first())) by {
            assert(forall|k: int| 0 <= k < s.len() - 1 ==> s.drop_first()[k] == s[k + 1]);
        }
        assert(assoc_get(s.drop_first(), name) is None);
        lemma_insert_then_remove(s.drop_first(), name, b);
        assert(r.drop_first() =~= sorted_insert(s.drop_first(), name, b));
        assert(sorted_remove(r, name) == seq![r.first()] + sorted_remove(r.drop_first(), name));
        assert(sorted_remove(r, name) =~= s);
    } else if s.first().0 == name {
        assert(assoc_get(s, name) == Some(s.first().1));
        assert(false);
    } else {
        assert(r.first() == (name, b));
        assert(r.drop_first() =~= s);
        assert(sorted_remove(r, name) =~= s);
    }
}

// ---------------------------------------------------------------------------
// The manifest
// ---------------------------------------------------------------------------

/// The manifest bytes of one branch slot: the kind tag (or `dangling`), a
/// space, the name, a NUL byte, then the payload length in decimal, a
/// colon, and the payload (a 20-byte id, the alias name bytes, or
/// nothing for a dangling branch).
pub open spec fn branch_line(name: Seq<u8>, b: Option<BranchModel>) -> Seq<u8> {
    match b {
        None => encode_utf8("dangling"@) + seq![32u8] + name + seq![0u8] + encode_utf8("0:"@),
        Some(bm) => encode_utf8(snapshot_type_chars(bm.target_type)) + seq![32u8] + name
            + seq![0u8] + (if bm.target_type == SnapshotTargetType::Alias {
            dec_digits(bm.target.len()) + seq![58u8] + bm.target
        } else {
            encode_utf8("20:"@) + bm.target
        }),
    }
}

/// The manifest of a snapshot: the branch renderings, concatenated in
/// name order.
pub open spec fn snap_manifest(s: Seq<BranchEntryModel>) -> Seq<u8>
    decreases s.len(),
{
    if s.len() == 0 {
        Seq::empty()
    } else {
        branch_line(s.first().0, s.first().1) + snap_manifest(s.drop_first())
    }
}

pub proof fn lemma_snap_manifest_push(s: Seq<BranchEntryModel>, e: BranchEntryModel)
    ensures
        snap_manifest(s.push(e)) == snap_manifest(s) + branch_line(e.0, e.1),
    decreases s.len(),
{
    let w = s.push(e);
    if s.len() == 0 {
        assert(w.first() == e);
        assert(w.drop_first() =~= Seq::<BranchEntryModel>::empty());
        assert(snap_manifest(w) == branch_line(e.0, e.1) + snap_manifest(
            Seq::<BranchEntryModel>::empty(),
        ));
        assert(snap_manifest(Seq::<BranchEntryModel>::empty()) == Seq::<u8>::empty());
        assert(snap_manifest(s) == Seq::<u8>::empty());
        assert(snap_manifest(w) =~= snap_manifest(s) + branch_line(e.0, e.1));
    } else {
        assert(w.first() == s.first());
        assert(w.drop_first() =~= s.drop_first().push(e));
        lemma_snap_manifest_push(s.drop_first(), e);
        assert(snap_manifest(w) == branch_line(w.first().0, w.first().1) + snap_manifest(
            s.drop_first().push(e),
        ));
        assert(snap_manifest(w) =~= snap_manifest(s) + branch_line(e.0, e.1));
    }
}

/// The identifier of a snapshot: the `snapshot`-tagged envelope hash of
/// its manifest.
pub open spec fn snap_hash(s: Seq<BranchEntryModel>) -> Seq<u8> {
    git_object_hash("snapshot"@, snap_manifest(s))
}

// ---------------------------------------------------------------------------
// The snapshot
// ---------------------------------------------------------------------------

/// A snapshot: named branches kept sorted by raw name bytes, with the
/// identifier recomputed whenever a branch is added or removed.
#[derive(Debug, Clone)]
pub struct Snapshot {
    branches: Vec<BranchEntry>,
    id: Vec<u8>,
    raw_manifest: Option<Vec<u8>>,
}

impl Snapshot {
    /// The branch slots, as seen by contracts.
    pub closed spec fn branches_model(&self) -> Seq<BranchEntryModel> {
        branch_models(self.branches@)
    }

    /// The stored identifier, as seen by contracts.
    pub closed spec fn id_bytes(&self) -> Seq<u8> {
        self.id@
    }

    /// The attached verbatim manifest, as seen by contracts.
    pub closed spec fn raw_manifest_bytes(&self) -> Option<Seq<u8>> {
        match self.raw_manifest {
            Some(m) => Some(m@),
            None => None,
        }
    }

    /// Branches sorted and valid, and the identifier current.
    pub open spec fn wf(&self) -> bool {
        &&& names_sorted(self.branches_model())
        &&& branches_valid(self.branches_model())
        &&& self.id_bytes() == snap_hash(self.branches_model())
        &&& self.id_bytes().len() == 20
    }

    /// Builds a snapshot from named slots taken in order, a later slot
    /// winning on a repeated name.  A non-alias branch whose target is
    /// not 20 bytes is rejected.
    pub fn new(branches: Vec<BranchEntry>) -> (r: Result<Self, SwhidError>)
        ensures
            r is Ok <==> branches_valid(branch_models(branches@)),
            r matches Ok(s) ==> s.wf() && s.branches_model() == build_sorted(
                branch_models(branches@),
            ) && s.raw_manifest_bytes() is None,
            r matches Err(e) ==> e == SwhidError::InvalidInput,
    {
        let ghost inputs = branch_models(branches@);
        let n = branches.len();
        for i in 0..n
            invariant
                n == branches@.len(),
                inputs == branch_models(branches@),
                forall|k: int|
                    0 <= k < i ==> match (#[trigger] inputs[k]).1 {
                        Some(b) => branch_valid(b),
                        None => true,
                    },
        {
            match &branches[i].1 {
                Some(b) => {
                    if !matches!(b.target_type, SnapshotTargetType::Alias) && b.target.len() != 20 {
                        assert(!branch_valid(inputs[i as int].1->Some_0));
                        return Err(SwhidError::InvalidInput);
                    }
                    assert(branch_valid(inputs[i as int].1->Some_0));
                }
                None => {}
            }
        }
        assert(branches_valid(inputs));
        let mut v = branches;
        let mut sorted: Vec<BranchEntry> = Vec::new();
        let mut i: usize = 0;
        assert(inputs.take(0) =~= Seq::<BranchEntryModel>::empty());
        assert(branch_models(sorted@) =~= Seq::<BranchEntryModel>::empty());
        assert(build_sorted(inputs.take(0)) =~= Seq::<BranchEntryModel>::empty());
        while i < n
            invariant
                n == inputs.len(),
                i <= n,
                v@.len() == n - i,
                branch_models(v@) == inputs.skip(i as int),
                branch_models(sorted@) == build_sorted(inputs.take(i as int)),
                names_sorted(branch_models(sorted@)),
                branches_valid(inputs),
                branches_valid(branch_models(sorted@)),
            decreases n - i,
        {
            let ghost vm = branch_models(v@);
            let ghost vold = v@;
            let (name, b) = v.remove(0);
            proof {
                assert(vm[0] == inputs[i as int]);
                assert(v@ =~= vold.drop_first());
                assert forall|k: int| 0 <= k < v@.len() implies branch_models(v@)[k] == vm[k
                    + 1] by {
                    assert(v@[k] == vold[k + 1]);
                }
                assert(branch_models(v@) =~= vm.drop_first());
                assert(vm.drop_first() =~= inputs.skip(i + 1));
                assert(name@ == inputs[i as int].0);
                assert((match b {
                    Some(ref bb) => Some(bb@),
                    None => None,
                }) == inputs[i as int].1);
            }
            let ghost before = branch_models(sorted@);
            assert(match inputs[i as int].1 {
                Some(bb) => branch_valid(bb),
                None => true,
            });
            insert_entry(&mut sorted, name, b);
            proof {
                assert(branch_models(sorted@) == sorted_insert(
                    before,
                    inputs[i as int].0,
                    inputs[i as int].1,
                ));
                assert(inputs.take(i + 1).drop_last() =~= inputs.take(i as int));
                assert(inputs.take(i + 1).last() == inputs[i as int]);
                assert(branch_models(sorted@) == build_sorted(inputs.take(i + 1)));
            }
            i = i + 1;
        }
        assert(inputs.take(n as int) =~= inputs);
        let id = snapshot_hash_of(&sorted);
        Ok(Snapshot { branches: sorted, id, raw_manifest: None })
    }

    /// Recomputes the identifier from the current branches.
    pub fn compute_hash(&self) -> (r: Vec<u8>)
        ensures
            r@ == snap_hash(self.branches_model()),
            r@.len() == 20,
    {
        snapshot_hash_of(&self.branches)
    }

    /// Builds the canonical snapshot manifest.
    pub fn to_git_snapshot_manifest(&self) -> (r: Vec<u8>)
        ensures
            r@ == snap_manifest(self.branches_model()),
    {
        snapshot_manifest_of(&self.branches)
    }

    /// The snapshot identifier in structured form.
    pub fn swhid(&self) -> (r: Swhid)
        requires
            self.wf(),
        ensures
            r.spec_type() == ObjectType::Snapshot,
            r.id_bytes() == snap_hash(self.branches_model()),
            r.wf(),
    {
        Swhid::new(ObjectType::Snapshot, self.id.clone())
    }

    /// The branch slots, sorted by name.
    pub fn branches(&self) -> (r: &Vec<BranchEntry>)
        ensures
            branch_models(r@) == self.branches_model(),
    {
        &self.branches
    }

    /// Looks a branch up by name; a dangling slot yields nothing.
    pub fn get_branch(&self, name: &[u8]) -> (r: Option<&SnapshotBranch>)
        ensures
            match assoc_get(self.branches_model(), name@) {
                Some(Some(b)) => r matches Some(rb) && rb@ == b,
                _ => r is None,
            },
    {
        let ghost s = self.branches_model();
        let n = self.branches.len();
        for i in 0..n
            invariant
                n == self.branches@.len(),
                s == self.branches_model(),
                forall|k: int| 0 <= k < i ==> (#[trigger] s[k]).0 != name@,
        {
            if bytes_eq(self.branches[i].0.as_slice(), name) {
                proof {
                    lemma_assoc_get_skip(s, i as int, name@);
                    assert(s.skip(i as int).first() == s[i as int]);
                }
                return match &self.branches[i].1 {
                    Some(b) => Some(b),
                    None => None,
                };
            }
        }
        proof {
            lemma_assoc_get_skip(s, n as int, name@);
            assert(s.skip(n as int) =~= Seq::<BranchEntryModel>::empty());
        }
        None
    }

    /// Adds or replaces a branch and recomputes the identifier.  A
    /// non-alias branch whose target is not 20 bytes is rejected and
    /// nothing changes.
    pub fn add_branch(&mut self, name: Vec<u8>, branch: SnapshotBranch) -> (r: Result<
        (),
        SwhidError,
    >)
        requires
            old(self).wf(),
        ensures
            final(self).wf(),
            final(self).raw_manifest_bytes() == old(self).raw_manifest_bytes(),
            r is Ok <==> branch_valid(branch@),
            r is Ok ==> final(self).branches_model() == sorted_insert(
                old(self).branches_model(),
                name@,
                Some(branch@),
            ),
            r matches Err(e) ==> e == SwhidError::InvalidInput && *final(self) == *old(self),
    {
        if !matches!(branch.target_type, SnapshotTargetType::Alias) && branch.target.len() != 20 {
            return Err(SwhidError::InvalidInput);
        }
        insert_entry(&mut self.branches, name, Some(branch));
        let id = snapshot_hash_of(&self.branches);
        self.id = id;
        Ok(())
    }

    /// Removes a branch, when present, and recomputes the identifier.
    pub fn remove_branch(&mut self, name: &[u8])
        requires
            old(self).wf(),
        ensures
            final(self).wf(),
            final(self).raw_manifest_bytes() == old(self).raw_manifest_bytes(),
            final(self).branches_model() == sorted_remove(old(self).branches_model(), name@),
    {
        let ghost s = old(self).branches_model();
        let n = self.branches.len();
        for i in 0..n
            invariant
                n == self.branches@.len(),
                *self == *old(self),
                s == self.branches_model(),
                names_sorted(s),
                branches_valid(s),
                forall|k: int| 0 <= k < i ==> (#[trigger] s[k]).0 != name@,
        {
            if bytes_eq(self.branches[i].0.as_slice(), name) {
                proof {
                    lemma_sorted_remove_skip(s, i as int, name@);
                    assert(s.skip(i as int).first() == s[i as int]);
                    assert(s.skip(i as int).drop_first() =~= s.skip(i + 1));
                }
                let ghost bold = self.branches@;
                self.branches.remove(i);
                proof {
                    assert forall|k: int|
                        0 <= k < self.branches@.len() implies self.branches_model()[k] == (
                    if k < i as int {
                        s[k]
                    } else {
                        s[k + 1]
                    }) by {
                        assert(self.branches@[k] == (if k < i as int {
                            bold[k]
                        } else {
                            bold[k + 1]
                        }));
                    }
                    assert(self.branches_model() =~= s.take(i as int) + s.skip(i + 1));
                    assert(self.branches_model() =~= sorted_remove(s, name@));
                }
                let id = snapshot_hash_of(&self.branches);
                self.id = id;
                proof {
                    let m = self.branches_model();
                    assert(m =~= s.take(i as int) + s.skip(i + 1));
                    assert forall|x: int, y: int|
                        0 <= x < y < m.len() implies lex_lt(m[x].0, m[y].0) by {
                        if x < i as int {
                            assert(m[x] == s[x]);
                        } else {
                            assert(m[x] == s[x + 1]);
                        }
                        if y < i as int {
                            assert(m[y] == s[y]);
                        } else {
                            assert(m[y] == s[y + 1]);
                        }
                    }
                    assert forall|x: int|
                        0 <= x < m.len() implies match (#[trigger] m[x]).1 {
                        Some(b) => branch_valid(b),
                        None => true,
                    } by {
                        if x < i as int {
                            assert(m[x] == s[x]);
                        } else {
                            assert(m[x] == s[x + 1]);
                        }
                    }
                }
                return ;
            }
        }
        proof {
            lemma_sorted_remove_skip(s, n as int, name@);
            assert(s.skip(n as int) =~= Seq::<BranchEntryModel>::empty());
            assert(s.take(n as int) =~= s);
            assert(self.branches_model() =~= sorted_remove(s, name@));
        }
        let id = snapshot_hash_of(&self.branches);
        self.id = id;
    }

    pub fn id(&self) -> (r: &Vec<u8>)
        ensures
            r@ == self.id_bytes(),
    {
        &self.id
    }

    pub fn raw_manifest(&self) -> (r: Option<&Vec<u8>>)
        ensures
            r is Some <==> self.raw_manifest_bytes() is Some,
            r matches Some(m) ==> self.raw_manifest_bytes() == Some(m@),
    {
        match &self.raw_manifest {
            Some(m) => Some(m),
            None => None,
        }
    }

    /// Attaches a verbatim manifest, keeping every other field.
    pub fn with_raw_manifest(self, manifest: Vec<u8>) -> (r: Self)
        ensures
            r.raw_manifest_bytes() == Some(manifest@),
            r.branches_model() == self.branches_model(),
            r.id_bytes() == self.id_bytes(),
    {
        let mut s = self;
        s.raw_manifest = Some(manifest);
        s
    }
}

/// Inserts a named slot into a sorted branch vector, keeping it sorted;
/// an existing slot with the same name is replaced.
fn insert_entry(v: &mut Vec<BranchEntry>, name: Vec<u8>, b: Option<SnapshotBranch>)
    requires
        names_sorted(branch_models(old(v)@)),
    ensures
        branch_models(final(v)@) == sorted_insert(
            branch_models(old(v)@),
            name@,
            match b {
                Some(bb) => Some(bb@),
                None => None,
            },
        ),
        names_sorted(branch_models(final(v)@)),
        branches_valid(branch_models(old(v)@)) && (match b {
            Some(bb) => branch_valid(bb@),
            None => true,
        }) ==> branches_valid(branch_models(final(v)@)),
{
    let ghost s = branch_models(v@);
    let ghost bm: Option<BranchModel> = match b {
        Some(ref bb) => Some(bb@),
        None => None,
    };
    let n = v.len();
    let mut j: usize = 0;
    while j < n && bytes_lt(v[j].0.as_slice(), name.as_slice())
        invariant
            n == v@.len(),
            *v == *old(v),
            s == branch_models(v@),
            j <= n,
            forall|k: int| 0 <= k < j ==> lex_lt((#[trigger] s[k]).0, name@),
        decreases n - j,
    {
        j = j + 1;
    }
    proof {
        lemma_sorted_insert_skip(s, j as int, name@, bm);
    }
    if j < n {
        let same = bytes_eq(v[j].0.as_slice(), name.as_slice());
        proof {
            assert(s.skip(j as int).first() == s[j as int]);
            crate::encoding::lemma_lex_trichotomy(s[j as int].0, name@);
        }
        if same {
            proof {
                assert(sorted_insert(s.skip(j as int), name@, bm) == seq![(name@, bm)] + s.skip(
                    j as int,
                ).drop_first());
                assert(s.skip(j as int).drop_first() =~= s.skip(j + 1));
            }
            v.set(j, (name, b));
            proof {
                assert(branch_models(v@) =~= s.take(j as int) + (seq![(name@, bm)] + s.skip(
                    j + 1,
                )));
                assert(branch_models(v@) =~= sorted_insert(s, name@, bm));
            }
        } else {
            proof {
                assert(!lex_lt(s[j as int].0, name@));
                assert(sorted_insert(s.skip(j as int), name@, bm) == seq![(name@, bm)] + s.skip(
                    j as int,
                ));
            }
            v.insert(j, (name, b));
            proof {
                assert(branch_models(v@) =~= s.take(j as int) + (seq![(name@, bm)] + s.skip(
                    j as int,
                )));
                assert(branch_models(v@) =~= sorted_insert(s, name@, bm));
            }
        }
    } else {
        proof {
            assert(s.skip(n as int) =~= Seq::<BranchEntryModel>::empty());
            assert(sorted_insert(s.skip(n as int), name@, bm) == seq![(name@, bm)]);
            assert(s.take(n as int) =~= s);
        }
        v.push((name, b));
        proof {
            assert(branch_models(v@) =~= s + seq![(name@, bm)]);
            assert(s.take(n as int) + (seq![(name@, bm)]) =~= s + seq![(name@, bm)]);
            assert(branch_models(v@) =~= sorted_insert(s, name@, bm));
        }
    }
    proof {
        let m = branch_models(v@);
        let ghost jj = j as int;
        assert forall|x: int, y: int| 0 <= x < y < m.len() implies lex_lt(m[x].0, m[y].0) by {
            lemma_insert_entry_order(s, m, jj, name@, bm, x, y);
        }
        if branches_valid(s) && (match bm {
            Some(bb) => branch_valid(bb),
            None => true,
        }) {
            lemma_sorted_insert_valid(s, name@, bm);
        }
    }
}

/// Insertion of a valid slot into a valid branch list keeps every slot
/// valid.
proof fn lemma_sorted_insert_valid(s: Seq<BranchEntryModel>, name: Seq<u8>, bm: Option<BranchModel>)
    requires
        branches_valid(s),
        match bm {
            Some(bb) => branch_valid(bb),
            None => true,
        },
    ensures
        branches_valid(sorted_insert(s, name, bm)),
    decreases s.len(),
{
    let r = sorted_insert(s, name, bm);
    if s.len() == 0 {
        assert(forall|x: int| 0 <= x < r.len() ==> r[x] == (name, bm));
    } else if lex_lt(s.first().0, name) {
        assert(branches_valid(s.drop_first())) by {
            assert(forall|k: int| 0 <= k < s.len() - 1 ==> s.drop_first()[k] == s[k + 1]);
        }
        lemma_sorted_insert_valid(s.drop_first(), name, bm);
        let rest = sorted_insert(s.drop_first(), name, bm);
        assert forall|x: int|
            0 <= x < r.len() implies match (#[trigger] r[x]).1 {
            Some(bb2) => branch_valid(bb2),
            None => true,
        } by {
            if x == 0 {
                assert(r[x] == s.first());
            } else {
                assert(r[x] == rest[x - 1]);
            }
        }
    } else if s.first().0 == name {
        assert forall|x: int|
            0 <= x < r.len() implies match (#[trigger] r[x]).1 {
            Some(bb2) => branch_valid(bb2),
            None => true,
        } by {
            if x > 0 {
                assert(r[x] == s.drop_first()[x - 1]);
                assert(r[x] == s[x]);
            }
        }
    } else {
        assert forall|x: int|
            0 <= x < r.len() implies match (#[trigger] r[x]).1 {
            Some(bb2) => branch_valid(bb2),
            None => true,
        } by {
            if x > 0 {
                assert(r[x] == s[x - 1]);
            }
        }
    }
}

/// The order argument for one pair of indices after an insertion.
proof fn lemma_insert_entry_order(
    s: Seq<BranchEntryModel>,
    m: Seq<BranchEntryModel>,
    j: int,
    name: Seq<u8>,
    bm: Option<BranchModel>,
    x: int,
    y: int,
)
    requires
        names_sorted(s),
        0 <= j <= s.len(),
        forall|k: int| 0 <= k < j ==> lex_lt((#[trigger] s[k]).0, name),
        j < s.len() ==> !lex_lt(s[j].0, name),
        m == s.take(j) + (seq![(name, bm)] + (if j < s.len() && s[j].0 == name {
            s.skip(j + 1)
        } else {
            s.skip(j)
        })),
        0 <= x < y < m.len(),
    ensures
        lex_lt(m[x].0, m[y].0),
{
    let replaced = j < s.len() && s[j].0 == name;
    let tail_off: int = if replaced {
        j + 1
    } else {
        j
    };
    assert(m.len() == s.len() + 1 - (if replaced {
        1int
    } else {
        0int
    }));
    assert(forall|k: int| 0 <= k < j ==> m[k] == s[k]);
    assert(m[j] == (name, bm));
    assert(forall|k: int| j + 1 <= k < m.len() ==> m[k] == s[k - j - 1 + tail_off]);
    if y < j {
        assert(lex_lt(s[x].0, s[y].0));
    } else if x < j && y == j {
        assert(lex_lt(s[x].0, name));
    } else if x < j && y > j {
        assert(m[y] == s[y - j - 1 + tail_off]);
        assert(lex_lt(s[x].0, s[y - j - 1 + tail_off].0));
    } else if x == j {
        assert(m[y] == s[y - j - 1 + tail_off]);
        if replaced {
            assert(y - j - 1 + tail_off >= j + 1);
            assert(lex_lt(s[j].0, s[y - j - 1 + tail_off].0));
        } else {
            assert(!lex_lt(s[j].0, name));
            crate::encoding::lemma_lex_trichotomy(s[j].0, name);
            assert(lex_lt(name, s[j].0) || s[j].0 == name);
            assert(s[j].0 != name);
            assert(y - j - 1 + tail_off >= j);
            if y - j - 1 + tail_off == j {
                assert(lex_lt(name, s[j].0));
            } else {
                assert(lex_lt(s[j].0, s[y - j - 1 + tail_off].0));
                crate::encoding::lemma_lex_lt_trans(
                    name,
                    s[j].0,
                    s[y - j - 1 + tail_off].0,
                );
            }
        }
    } else {
        assert(m[x] == s[x - j - 1 + tail_off]);
        assert(m[y] == s[y - j - 1 + tail_off]);
        assert(lex_lt(s[x - j - 1 + tail_off].0, s[y - j - 1 + tail_off].0));
    }
}

/// Builds the canonical manifest of a sorted branch vector.
fn snapshot_manifest_of(branches: &Vec<BranchEntry>) -> (r: Vec<u8>)
    ensures
        r@ == snap_manifest(branch_models(branches@)),
{
    let ghost s = branch_models(branches@);
    let mut buf: Vec<u8> = Vec::new();
    let n = branches.len();
    assert(s.take(0) =~= Seq::<BranchEntryModel>::empty());
    for i in 0..n
        invariant
            n == branches@.len(),
            s == branch_models(branches@),
            buf@ == snap_manifest(s.take(i as int)),
    {
        let ghost entry = s[i as int];
        match &branches[i].1 {
            None => {
                push_bytes(&mut buf, ("dangling").as_bytes());
                buf.push(32);
                push_bytes(&mut buf, branches[i].0.as_slice());
                buf.push(0);
                push_bytes(&mut buf, ("0:").as_bytes());
            }
            Some(b) => {
                let tag = b.target_type.as_str();
                push_bytes(&mut buf, tag.as_bytes());
                buf.push(32);
                push_bytes(&mut buf, branches[i].0.as_slice());
                buf.push(0);
                match b.target_type {
                    SnapshotTargetType::Alias => {
                        let len_digits = dec_u64(b.target.len() as u64);
                        push_bytes(&mut buf, len_digits.as_slice());
                        buf.push(58);
                        push_bytes(&mut buf, b.target.as_slice());
                    }
                    _ => {
                        push_bytes(&mut buf, ("20:").as_bytes());
                        push_bytes(&mut buf, b.target.as_slice());
                    }
                }
            }
        }
        proof {
            lemma_snap_manifest_push(s.take(i as int), entry);
            assert(s.take(i + 1) =~= s.take(i as int).push(entry));
            assert(buf@ =~= snap_manifest(s.take(i as int)) + branch_line(entry.0, entry.1));
        }
    }
    assert(s.take(n as int) =~= s);
    buf
}

/// Hashes the canonical manifest of a sorted branch vector.
fn snapshot_hash_of(branches: &Vec<BranchEntry>) -> (r: Vec<u8>)
    ensures
        r@ == snap_hash(branch_models(branches@)),
        r@.len() == 20,
{
    let manifest = snapshot_manifest_of(branches);
    hash_git_object("snapshot", manifest.as_slice())
}

} // verus!
