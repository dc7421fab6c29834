//! Backups: content-addressed snapshots of a byte stream, indexed as objects.

use vstd::prelude::*;
use crate::bytes::to_vec;
use crate::keyed_map::KeyedMap;
use crate::text::decimal_text;
use crate::object::types::{ObjectID, NamespaceID, ObjectType};
use crate::api::{NexAppApi, CoreRuntimeError, runtime_error_text, node_reply, live_object};
use crate::identity::types::CapabilityProof;
use crate::apps::drive::{CasChunkStore, assembles, chunk_views, cas_digest, puts, put_view, file_chunk_count, file_chunk, merkle_root_of};

verus! {

#[derive(Debug)]
pub struct BackupSnapshot {
    pub snapshot_id: ObjectID,
    pub namespace: NamespaceID,
    pub label: String,
    pub content_root: [u8; 32],
    pub chunk_digests: Vec<[u8; 32]>,
    pub total_byte_size: u64,
    pub created_epoch: u64,
}

/// Whether two snapshots hold the same values.
pub open spec fn same_snapshot(a: BackupSnapshot, b: BackupSnapshot) -> bool {
    &&& a.snapshot_id == b.snapshot_id
    &&& a.namespace == b.namespace
    &&& a.label@ == b.label@
    &&& a.content_root == b.content_root
    &&& a.chunk_digests@ == b.chunk_digests@
    &&& a.total_byte_size == b.total_byte_size
    &&& a.created_epoch == b.created_epoch
}

impl BackupSnapshot {
    /// A field-by-field copy.
    pub fn duplicate(&self) -> (r: Self)
        ensures
            same_snapshot(r, *self),
    {
        let mut digests: Vec<[u8; 32]> = Vec::new();
        let mut i: usize = 0;
        while i < self.chunk_digests.len()
            invariant
                i <= self.chunk_digests@.len(),
                digests@ == self.chunk_digests@.take(i as int),
            decreases self.chunk_digests@.len() - i,
        {
            digests.push(self.chunk_digests[i]);
            i = i + 1;
            assert(digests@ =~= self.chunk_digests@.take(i as int));
        }
        assert(digests@ =~= self.chunk_digests@);
        BackupSnapshot {
            snapshot_id: self.snapshot_id,
            namespace: self.namespace,
            label: self.label.as_str().to_string(),
            content_root: self.content_root,
            chunk_digests: digests,
            total_byte_size: self.total_byte_size,
            created_epoch: self.created_epoch,
        }
    }
}

/// What a record codec turns snapshots into and back.
pub trait BackupCodec {
    fn encode_snapshot(&self, s: &BackupSnapshot) -> Result<Vec<u8>, String>;
    fn decode_snapshot(&self, bytes: &[u8]) -> Result<BackupSnapshot, String>;
}

pub struct NexBackupEngine<A: NexAppApi> {
    pub namespace_id: NamespaceID,
    pub api: A,
    pub cas: CasChunkStore,
    pub snapshots: KeyedMap<ObjectID, BackupSnapshot>,
}

impl<A: NexAppApi> NexBackupEngine<A> {
    pub fn new(namespace_id: NamespaceID, api: A, cas: CasChunkStore) -> (r: Self)
        ensures
            r.namespace_id == namespace_id,
            r.api == api,
            r.cas == cas,
            r.snapshots@ == Map::<Seq<u8>, BackupSnapshot>::empty(),
    {
        NexBackupEngine { namespace_id, api, cas, snapshots: KeyedMap::new() }
    }

    /// Files `data` in the chunk store, stores a snapshot of it (encoded by
    /// `codec`, with its label and size as metadata) and records it under the new
    /// object's id. The chunks stay filed whether or not the object is created.
    pub fn create_backup<C: BackupCodec>(
        &mut self,
        codec: &C,
        label: &str,
        data: &[u8],
        epoch: u64,
        proof: Option<CapabilityProof>,
    ) -> (r: Result<ObjectID, String>)
        ensures
            data@.len() > 0 ==> chunk_views(final(self).cas.chunks@)
                == puts(chunk_views(old(self).cas.chunks@), data@, file_chunk_count(data@.len() as int)),
            data@.len() == 0 ==> chunk_views(final(self).cas.chunks@)
                == put_view(chunk_views(old(self).cas.chunks@), Seq::empty()),
            r is Err ==> final(self).snapshots@ == old(self).snapshots@,
            r matches Ok(id) ==> {
                let s = final(self).snapshots@[id@];
                &&& final(self).snapshots@.dom() == old(self).snapshots@.dom().insert(id@)
                &&& s.snapshot_id == id
                &&& s.namespace == old(self).namespace_id
                &&& s.label@ == label@
                &&& s.total_byte_size == data@.len()
                &&& s.created_epoch == epoch
                &&& data@.len() > 0 ==> {
                    &&& s.chunk_digests@.len() == file_chunk_count(data@.len() as int)
                    &&& forall|i: int| 0 <= i < s.chunk_digests@.len()
                        ==> (#[trigger] s.chunk_digests@[i])@ == cas_digest(file_chunk(data@, i))
                    &&& s.content_root@ == merkle_root_of(s.chunk_digests@.map_values(|d: [u8; 32]| d@))
                }
                &&& data@.len() == 0 ==> s.chunk_digests@ == seq![s.content_root]
                    && s.content_root@ == cas_digest(Seq::empty())
                &&& forall|k: Seq<u8>| k != id@ && #[trigger] old(self).snapshots@.contains_key(k)
                    ==> final(self).snapshots@[k] == old(self).snapshots@[k]
            },
            final(self).namespace_id == old(self).namespace_id,
    {
        let (content_root, chunk_digests) = self.cas.store_file(data);
        let snapshot = BackupSnapshot {
            snapshot_id: [0u8; 32],
            namespace: self.namespace_id,
            label: label.to_string(),
            content_root,
            chunk_digests,
            total_byte_size: data.len() as u64,
            created_epoch: epoch,
        };
        let encoded = match codec.encode_snapshot(&snapshot) {
            Ok(b) => b,
            Err(e) => {
                return Err(e);
            }
        };
        let mut meta: KeyedMap<String, String> = KeyedMap::new();
        meta.insert("label".to_string(), label.to_string());
        meta.insert("size_bytes".to_string(), decimal_text(data.len() as u64));
        let _ = proof;
        let obj_id = match self.api.create_object(self.namespace_id, ObjectType::BackupIndex, meta, encoded) {
            Ok(id) => id,
            Err(e) => {
                return Err(runtime_error_text(&e));
            }
        };
        let final_snap = BackupSnapshot { snapshot_id: obj_id, ..snapshot };
        self.snapshots.insert(obj_id, final_snap);
        proof {
            assert(self.snapshots@.dom() =~= old(self).snapshots@.dom().insert(obj_id@));
        }
        Ok(obj_id)
    }

    /// Reads the snapshot's object, refuses a tombstoned one, decodes the snapshot
    /// and reassembles its bytes from the chunk store. Whatever the node and codec
    /// return, a success is the concatenation of the stored chunks a snapshot lists.
    pub fn restore_backup<C: BackupCodec>(&self, codec: &C, snapshot_id: &ObjectID) -> (r: Result<Vec<u8>, String>)
        ensures
            r matches Ok(out) ==> exists|ds: Seq<[u8; 32]>| #[trigger] assembles(self.cas.chunks@, ds, out@),
    {
        let obj = match live_object(self.api.read_object(snapshot_id), "Backup snapshot is tombstoned") {
            Ok(o) => o,
            Err(e) => {
                return Err(e);
            }
        };
        let snapshot = match codec.decode_snapshot(obj.payload_bytes.as_slice()) {
            Ok(s) => s,
            Err(e) => {
                return Err(e);
            }
        };
        let r = self.cas.assemble_file(snapshot.chunk_digests.as_slice());
        proof {
            if r is Ok {
                assert(assembles(self.cas.chunks@, snapshot.chunk_digests@, r->Ok_0@));
            }
        }
        r
    }

    /// Deletes the snapshot's object, then forgets the snapshot; the node's error
    /// comes back as its text, with the snapshots unchanged.
    pub fn prune_backup(&mut self, snapshot_id: ObjectID, proof: Option<CapabilityProof>) -> (r: Result<(), String>)
        ensures
            r is Err ==> final(self).snapshots@ == old(self).snapshots@,
            r is Ok ==> final(self).snapshots@ == old(self).snapshots@.remove(snapshot_id@),
            final(self).namespace_id == old(self).namespace_id,
    {
        let outcome = self.api.delete_object(snapshot_id, proof);
        self.apply_snapshot_deletion(snapshot_id, outcome)
    }

    /// Applies the node's reply to deleting a snapshot's object: on success forgets
    /// the snapshot; on failure changes nothing.
    pub fn apply_snapshot_deletion(&mut self, snapshot_id: ObjectID, outcome: Result<[u8; 32], CoreRuntimeError>) -> (r: Result<(), String>)
        ensures
            outcome is Ok <==> r is Ok,
            r is Err ==> final(self).snapshots@ == old(self).snapshots@,
            r is Ok ==> final(self).snapshots@ == old(self).snapshots@.remove(snapshot_id@),
            final(self).namespace_id == old(self).namespace_id,
            final(self).cas == old(self).cas,
            final(self).api == old(self).api,
    {
        if let Err(e) = node_reply(outcome) {
            return Err(e);
        }
        self.snapshots.remove(&snapshot_id);
        Ok(())
    }

    /// Copies of the snapshots, in id order.
    pub fn list_backups(&self) -> (r: Vec<BackupSnapshot>)
        ensures
            r@.len() == self.snapshots.entries_view().len(),
            forall|i: int| 0 <= i < r@.len() ==> same_snapshot(#[trigger] r@[i], self.snapshots.entries_view()[i].1),
    {
        let n = self.snapshots.len();
        let mut out: Vec<BackupSnapshot> = Vec::new();
        let mut i: usize = 0;
        while i < n
            invariant
                i <= n,
                n == self.snapshots.entries_view().len(),
                out@.len() == i,
                forall|j: int| 0 <= j < i ==> same_snapshot(#[trigger] out@[j], self.snapshots.entries_view()[j].1),
            decreases n - i,
        {
            out.push(self.snapshots.value_at(i).duplicate());
            i = i + 1;
        }
        out
    }
}

} // verus!
