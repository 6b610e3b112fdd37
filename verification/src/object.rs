//! The stored records that an upload reads and writes: object versions and
//! their state, and the block and part lists of a version.

use crate::headers::ObjectVersionHeaders;
use vstd::prelude::*;

verus! {

/// Identifier of an object version (and of a multipart upload).
pub type Uuid = [u8; 32];

/// Content hash of a stored block.
pub type Hash32 = [u8; 32];

/// What is known of a complete object version.
#[derive(Debug, PartialEq, Eq)]
pub struct ObjectVersionMeta {
    pub headers: ObjectVersionHeaders,
    pub size: u64,
    pub etag: String,
}

/// Where the data of a complete object version is.
#[derive(Debug, PartialEq, Eq)]
pub enum ObjectVersionData {
    /// Small objects are kept with their metadata.
    Inline(ObjectVersionMeta, Vec<u8>),
    /// Larger ones are kept in blocks; this is the hash of the first block.
    FirstBlock(ObjectVersionMeta, Hash32),
}

/// The life cycle of an object version.
#[derive(Debug, PartialEq, Eq)]
pub enum ObjectVersionState {
    Uploading(ObjectVersionHeaders),
    Complete(ObjectVersionData),
    Aborted,
}

/// One version of an object.
#[derive(Debug, PartialEq, Eq)]
pub struct ObjectVersion {
    pub uuid: Uuid,
    pub timestamp: u64,
    pub state: ObjectVersionState,
}

/// An object: a key in a bucket, with its versions.
#[derive(Debug, PartialEq, Eq)]
pub struct Object {
    pub bucket: String,
    pub key: String,
    pub versions: Vec<ObjectVersion>,
}

/// The place of a block in a version: its part and its offset in the part.
#[derive(Clone, Copy, Debug, PartialEq, Eq)]
pub struct VersionBlockKey {
    pub part_number: u64,
    pub offset: u64,
}

/// A stored block of a version.
#[derive(Clone, Copy, Debug, PartialEq, Eq)]
pub struct VersionBlock {
    pub hash: Hash32,
    pub size: u64,
}

/// What is recorded of a part of a multipart upload when it is stored: the
/// etag (hex MD5) and the size of its data.
#[derive(Debug, PartialEq, Eq)]
pub struct PartInfo {
    pub etag: String,
    pub size: u64,
}

/// The block list of an object version, and its recorded parts.
#[derive(Debug, PartialEq, Eq)]
pub struct Version {
    pub uuid: Uuid,
    pub bucket: String,
    pub key: String,
    pub deleted: bool,
    /// Sorted by part number, then offset.
    pub blocks: Vec<(VersionBlockKey, VersionBlock)>,
    /// The last recorded upload of each part, sorted by part number.
    pub parts: Vec<(u64, PartInfo)>,
}

/// Block keys in the order the block list keeps: by part, then by offset.
pub open spec fn key_lt(a: VersionBlockKey, b: VersionBlockKey) -> bool {
    a.part_number < b.part_number || (a.part_number == b.part_number && a.offset < b.offset)
}

impl Version {
    /// The block list and the part list are sorted, without repeated keys.
    pub open spec fn wf(&self) -> bool {
        &&& forall|i: int, j: int|
            0 <= i < j < self.blocks@.len() ==> key_lt(
                #[trigger] self.blocks@[i].0,
                #[trigger] self.blocks@[j].0,
            )
        &&& forall|i: int, j: int|
            0 <= i < j < self.parts@.len() ==> #[trigger] self.parts@[i].0
                < #[trigger] self.parts@[j].0
    }

    /// A version with no block and no part yet.
    pub fn new(uuid: Uuid, bucket: String, key: String, deleted: bool) -> (v: Version)
        ensures
            v.uuid == uuid,
            v.bucket == bucket,
            v.key == key,
            v.deleted == deleted,
            v.blocks@.len() == 0,
            v.parts@.len() == 0,
            v.wf(),
    {
        Version { uuid, bucket, key, deleted, blocks: Vec::new(), parts: Vec::new() }
    }
}

/// The blocks are in key order, no key twice.
pub open spec fn blocks_sorted(b: Seq<(VersionBlockKey, VersionBlock)>) -> bool {
    forall|i: int, j: int| 0 <= i < j < b.len() ==> key_lt(#[trigger] b[i].0, #[trigger] b[j].0)
}

/// The block list `b` with the block `e` put at its key: in key order,
/// taking the place of a block with the same key.
pub open spec fn blocks_put(
    b: Seq<(VersionBlockKey, VersionBlock)>,
    e: (VersionBlockKey, VersionBlock),
) -> Seq<(VersionBlockKey, VersionBlock)>
    decreases b.len(),
{
    if b.len() == 0 {
        seq![e]
    } else if key_lt(e.0, b[0].0) {
        seq![e] + b
    } else if b[0].0 == e.0 {
        seq![e] + b.drop_first()
    } else {
        seq![b[0]] + blocks_put(b.drop_first(), e)
    }
}

proof fn lemma_blocks_put_at(
    b: Seq<(VersionBlockKey, VersionBlock)>,
    e: (VersionBlockKey, VersionBlock),
    i: int,
)
    requires
        blocks_sorted(b),
        0 <= i <= b.len(),
        forall|j: int| 0 <= j < i ==> key_lt(#[trigger] b[j].0, e.0),
        i < b.len() ==> !key_lt(b[i].0, e.0),
    ensures
        i < b.len() && b[i].0 == e.0 ==> blocks_put(b, e) == b.take(i).push(e) + b.skip(i + 1),
        !(i < b.len() && b[i].0 == e.0) ==> blocks_put(b, e) == b.take(i).push(e) + b.skip(i),
    decreases i,
{
    if i == 0 {
        if b.len() > 0 {
            assert(b.skip(1) =~= b.drop_first());
        }
        assert(b.take(0).push(e) =~= seq![e]);
        assert(b.skip(0) =~= b);
    } else {
        let t = b.drop_first();
        assert(key_lt(b[0].0, e.0));
        assert forall|j: int| 0 <= j < i - 1 implies key_lt(#[trigger] t[j].0, e.0) by {
            assert(t[j] == b[j + 1]);
        }
        lemma_blocks_put_at(t, e, i - 1);
        assert(b.take(i).push(e) =~= seq![b[0]] + t.take(i - 1).push(e));
        assert(b.skip(i) =~= t.skip(i - 1));
        if i < b.len() {
            assert(b.skip(i + 1) =~= t.skip(i));
        }
    }
}

impl Version {
    /// Puts a block in the block list at its key, keeping the list sorted.
    pub fn put_block(&mut self, key: VersionBlockKey, block: VersionBlock)
        requires
            old(self).wf(),
        ensures
            final(self).wf(),
            final(self).blocks@ == blocks_put(old(self).blocks@, (key, block)),
            final(self).uuid == old(self).uuid,
            final(self).bucket == old(self).bucket,
            final(self).key == old(self).key,
            final(self).deleted == old(self).deleted,
            final(self).parts == old(self).parts,
    {
        let ghost b = self.blocks@;
        let ghost e = (key, block);
        let mut i: usize = 0;
        while i < self.blocks.len()
            invariant
                i <= b.len(),
                self.blocks@ == b,
                forall|j: int| 0 <= j < i ==> key_lt(#[trigger] b[j].0, key),
            ensures
                i <= b.len(),
                self.blocks@ == b,
                forall|j: int| 0 <= j < i ==> key_lt(#[trigger] b[j].0, key),
                i < b.len() ==> !key_lt(b[i as int].0, key),
            decreases b.len() - i,
        {
            let k = self.blocks[i].0;
            if !(k.part_number < key.part_number || (k.part_number == key.part_number && k.offset
                < key.offset)) {
                break;
            }
            i = i + 1;
        }
        proof {
            lemma_blocks_put_at(b, e, i as int);
        }
        if i < self.blocks.len() && self.blocks[i].0.part_number == key.part_number
            && self.blocks[i].0.offset == key.offset {
            self.blocks.set(i, (key, block));
            assert(self.blocks@ =~= b.take(i as int).push(e) + b.skip(i + 1));
        } else {
            self.blocks.insert(i, (key, block));
            assert(self.blocks@ =~= b.take(i as int).push(e) + b.skip(i as int));
        }
        assert forall|x: int, y: int| 0 <= x < y < self.blocks@.len() implies key_lt(
            #[trigger] self.blocks@[x].0,
            #[trigger] self.blocks@[y].0,
        ) by {
            if x < i && y > i {
                assert(key_lt(b[x].0, key));
            }
        }
    }

    /// A copy of the version.
    pub fn copy(&self) -> (r: Version)
        ensures
            r.uuid == self.uuid,
            r.bucket == self.bucket,
            r.key == self.key,
            r.deleted == self.deleted,
            r.blocks@ == self.blocks@,
            r.parts@ == self.parts@,
    {
        let mut blocks: Vec<(VersionBlockKey, VersionBlock)> = Vec::new();
        let mut i: usize = 0;
        while i < self.blocks.len()
            invariant
                i <= self.blocks@.len(),
                blocks@ == self.blocks@.take(i as int),
            decreases self.blocks@.len() - i,
        {
            blocks.push(self.blocks[i]);
            assert(self.blocks@.take(i + 1) =~= self.blocks@.take(i as int).push(self.blocks@[i as int]));
            i = i + 1;
        }
        assert(self.blocks@.take(self.blocks@.len() as int) =~= self.blocks@);
        let mut parts: Vec<(u64, PartInfo)> = Vec::new();
        let mut j: usize = 0;
        while j < self.parts.len()
            invariant
                j <= self.parts@.len(),
                parts@ == self.parts@.take(j as int),
            decreases self.parts@.len() - j,
        {
            let (n, info) = &self.parts[j];
            parts.push((*n, PartInfo { etag: info.etag.clone(), size: info.size }));
            assert(self.parts@.take(j + 1) =~= self.parts@.take(j as int).push(
                self.parts@[j as int],
            ));
            j = j + 1;
        }
        assert(self.parts@.take(self.parts@.len() as int) =~= self.parts@);
        Version {
            uuid: self.uuid,
            bucket: self.bucket.clone(),
            key: self.key.clone(),
            deleted: self.deleted,
            blocks,
            parts,
        }
    }
}

impl ObjectVersion {
    /// Whether the version is still being uploaded.
    pub fn is_uploading(&self) -> (r: bool)
        ensures
            r == (self.state is Uploading),
    {
        match self.state {
            ObjectVersionState::Uploading(_) => true,
            _ => false,
        }
    }
}

/// Whether two identifiers are the same.
pub fn uuid_eq(a: &Uuid, b: &Uuid) -> (r: bool)
    ensures
        r == (a@ == b@),
{
    let mut i: usize = 0;
    while i < 32
        invariant
            i <= 32,
            a@.len() == 32,
            b@.len() == 32,
            forall|j: int| 0 <= j < i ==> a@[j] == b@[j],
        decreases 32 - i,
    {
        if a[i] != b[i] {
            return false;
        }
        i = i + 1;
    }
    assert(a@ =~= b@);
    true
}

/// The version `v` is the one being uploaded under identifier `uuid`.
pub open spec fn is_upload_of(v: ObjectVersion, uuid: Uuid) -> bool {
    v.uuid@ == uuid@ && v.state is Uploading
}

/// The position of the first version at `from` or later that is being
/// uploaded under identifier `uuid`.
pub open spec fn upload_position_from(vs: Seq<ObjectVersion>, uuid: Uuid, from: int) -> Option<int>
    decreases vs.len() - from,
{
    if from < 0 || from >= vs.len() {
        None
    } else if is_upload_of(vs[from], uuid) {
        Some(from)
    } else {
        upload_position_from(vs, uuid, from + 1)
    }
}

/// The position of the first version being uploaded under identifier
/// `uuid`: the open upload of that identifier, if there is one.
pub open spec fn upload_position(vs: Seq<ObjectVersion>, uuid: Uuid) -> Option<int> {
    upload_position_from(vs, uuid, 0)
}

proof fn lemma_upload_position_from(vs: Seq<ObjectVersion>, uuid: Uuid, from: int)
    requires
        0 <= from,
    ensures
        match upload_position_from(vs, uuid, from) {
            Some(j) => from <= j < vs.len() && is_upload_of(vs[j], uuid) && forall|k: int|
                from <= k < j ==> !is_upload_of(#[trigger] vs[k], uuid),
            None => forall|k: int| from <= k < vs.len() ==> !is_upload_of(#[trigger] vs[k], uuid),
        },
    decreases vs.len() - from,
{
    if from < vs.len() && !is_upload_of(vs[from], uuid) {
        lemma_upload_position_from(vs, uuid, from + 1);
    }
}

/// What the open upload of an identifier is: the first version being
/// uploaded under it, or none when no version is.
pub proof fn lemma_upload_position(vs: Seq<ObjectVersion>, uuid: Uuid)
    ensures
        match upload_position(vs, uuid) {
            Some(j) => 0 <= j < vs.len() && is_upload_of(vs[j], uuid) && forall|k: int|
                0 <= k < j ==> !is_upload_of(#[trigger] vs[k], uuid),
            None => forall|k: int| 0 <= k < vs.len() ==> !is_upload_of(#[trigger] vs[k], uuid),
        },
{
    lemma_upload_position_from(vs, uuid, 0);
}

/// The position of the open upload of identifier `uuid` among the versions,
/// if any (see [`upload_position`]).
pub fn find_uploading_version(versions: &Vec<ObjectVersion>, uuid: &Uuid) -> (r: Option<usize>)
    ensures
        match r {
            Some(i) => upload_position(versions@, *uuid) == Some(i as int),
            None => upload_position(versions@, *uuid) is None,
        },
        r matches Some(i) ==> i < versions@.len(),
{
    let mut i: usize = 0;
    while i < versions.len()
        invariant
            i <= versions@.len(),
            upload_position(versions@, *uuid) == upload_position_from(versions@, *uuid, i as int),
        decreases versions@.len() - i,
    {
        if uuid_eq(&versions[i].uuid, uuid) && versions[i].is_uploading() {
            return Some(i);
        }
        i = i + 1;
    }
    None
}

/// A version that is complete or aborted is no longer an open upload: once
/// every version of an object is, no identifier has an open upload there,
/// so a part, a completion or an abort for it is refused.
pub proof fn lemma_closed_uploads_refused(vs: Seq<ObjectVersion>, uuid: Uuid)
    requires
        forall|k: int| 0 <= k < vs.len() ==> !(#[trigger] vs[k].state is Uploading),
    ensures
        upload_position(vs, uuid) is None,
{
    lemma_upload_position(vs, uuid);
}

/// A copy of a list of (name, value) pairs.
pub fn clone_pairs(p: &Vec<(String, String)>) -> (r: Vec<(String, String)>)
    ensures
        r@ == p@,
{
    let mut r: Vec<(String, String)> = Vec::new();
    let mut i: usize = 0;
    while i < p.len()
        invariant
            i <= p@.len(),
            r@ == p@.take(i as int),
        decreases p@.len() - i,
    {
        let (a, b) = &p[i];
        r.push((a.clone(), b.clone()));
        assert(p@.take(i + 1) =~= p@.take(i as int).push(p@[i as int]));
        i = i + 1;
    }
    assert(p@.take(p@.len() as int) =~= p@);
    r
}

/// A copy of stored headers.
pub fn clone_headers(h: &ObjectVersionHeaders) -> (r: ObjectVersionHeaders)
    ensures
        r.content_type == h.content_type,
        r.other@ == h.other@,
{
    ObjectVersionHeaders { content_type: h.content_type.clone(), other: clone_pairs(&h.other) }
}

/// A copy of an object version whose state is now `Aborted`.
pub fn aborted_copy(v: &ObjectVersion) -> (r: ObjectVersion)
    ensures
        r.uuid == v.uuid,
        r.timestamp == v.timestamp,
        r.state is Aborted,
{
    ObjectVersion { uuid: v.uuid, timestamp: v.timestamp, state: ObjectVersionState::Aborted }
}

} // verus!
