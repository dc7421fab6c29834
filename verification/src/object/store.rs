//! Objects by id, with per-namespace and per-owner id lists.

use vstd::prelude::*;
use crate::keyed_map::{KeyedMap, add_member, with_member, index_view};
use crate::model::ActorID;
use crate::object::types::{ObjectID, NamespaceID, NexObject, ObjectType};

verus! {

#[derive(Debug)]
pub struct NexObjectStore {
    pub objects: KeyedMap<ObjectID, NexObject>,
    pub namespace_index: KeyedMap<NamespaceID, Vec<ObjectID>>,
    pub owner_index: KeyedMap<ActorID, Vec<ObjectID>>,
}

/// Whether an incoming object replaces the stored one: a real object always replaces
/// a synthetic one; a synthetic one replaces a real one only when strictly newer in
/// (epoch, Lamport) order; otherwise the newer or equal one wins.
pub open spec fn supersedes(incoming: NexObject, existing: NexObject) -> bool {
    let in_syn = incoming.object_type is Synthetic;
    let ex_syn = existing.object_type is Synthetic;
    if ex_syn && !in_syn {
        true
    } else if !ex_syn && in_syn {
        incoming.created_epoch > existing.created_epoch
            || (incoming.created_epoch == existing.created_epoch && incoming.created_lamport > existing.created_lamport)
    } else {
        incoming.created_epoch > existing.created_epoch
            || (incoming.created_epoch == existing.created_epoch && incoming.created_lamport >= existing.created_lamport)
    }
}

impl NexObjectStore {
    pub fn new() -> (r: Self)
        ensures
            r.objects@ == Map::<Seq<u8>, NexObject>::empty(),
            r.namespace_index@ == Map::<Seq<u8>, Vec<ObjectID>>::empty(),
            r.owner_index@ == Map::<Seq<u8>, Vec<ObjectID>>::empty(),
    {
        NexObjectStore { objects: KeyedMap::new(), namespace_index: KeyedMap::new(), owner_index: KeyedMap::new() }
    }

    /// Stores `object` unless the stored object under its id supersedes it; a stored
    /// object is also listed under its namespace and owner.
    pub fn insert(&mut self, object: NexObject)
        ensures
            ({
                let id = object.object_id@;
                let accepted = !old(self).objects@.contains_key(id) || supersedes(object, old(self).objects@[id]);
                &&& accepted ==> {
                    &&& final(self).objects@ == old(self).objects@.insert(id, object)
                    &&& index_view(final(self).namespace_index@)
                        == with_member(index_view(old(self).namespace_index@), object.namespace@, object.object_id)
                    &&& index_view(final(self).owner_index@)
                        == with_member(index_view(old(self).owner_index@), object.owner_actor_id@, object.object_id)
                }
                &&& !accepted ==> {
                    &&& final(self).objects@ == old(self).objects@
                    &&& final(self).namespace_index@ == old(self).namespace_index@
                    &&& final(self).owner_index@ == old(self).owner_index@
                }
            }),
    {
        let obj_id = object.object_id;
        let ns = object.namespace;
        let owner = object.owner_actor_id;
        let should_insert = match self.objects.get(&obj_id) {
            Some(existing) => {
                let ex_syn = match existing.object_type {
                    ObjectType::Synthetic(_) => true,
                    _ => false,
                };
                let in_syn = match object.object_type {
                    ObjectType::Synthetic(_) => true,
                    _ => false,
                };
                if ex_syn && !in_syn {
                    true
                } else if !ex_syn && in_syn {
                    object.created_epoch > existing.created_epoch
                        || (object.created_epoch == existing.created_epoch && object.created_lamport > existing.created_lamport)
                } else {
                    object.created_epoch > existing.created_epoch
                        || (object.created_epoch == existing.created_epoch && object.created_lamport >= existing.created_lamport)
                }
            }
            None => true,
        };
        if should_insert {
            add_member(&mut self.namespace_index, ns, obj_id);
            add_member(&mut self.owner_index, owner, obj_id);
            self.objects.insert(obj_id, object);
        }
    }

    pub fn get(&self, object_id: &ObjectID) -> (r: Option<&NexObject>)
        ensures
            match r {
                Some(o) => self.objects@.contains_key(object_id@) && *o == self.objects@[object_id@],
                None => !self.objects@.contains_key(object_id@),
            },
    {
        self.objects.get(object_id)
    }

    /// The stored objects listed under `namespace`, in listing order.
    pub fn list_by_namespace(&self, namespace: &NamespaceID) -> (r: Vec<&NexObject>)
        ensures
            self.namespace_index@.contains_key(namespace@) ==> r@.map_values(|o: &NexObject| *o)
                == self.namespace_index@[namespace@]@.filter(|id: ObjectID| self.objects@.contains_key(id@))
                    .map_values(|id: ObjectID| self.objects@[id@]),
            !self.namespace_index@.contains_key(namespace@) ==> r@.len() == 0,
    {
        let mut r: Vec<&NexObject> = Vec::new();
        match self.namespace_index.get(namespace) {
            Some(ids) => {
                let ghost pred = |id: ObjectID| self.objects@.contains_key(id@);
                let ghost f = |id: ObjectID| self.objects@[id@];
                let mut i: usize = 0;
                while i < ids.len()
                    invariant
                        i <= ids@.len(),
                        pred == (|id: ObjectID| self.objects@.contains_key(id@)),
                        f == (|id: ObjectID| self.objects@[id@]),
                        r@.map_values(|o: &NexObject| *o) == ids@.take(i as int).filter(pred).map_values(f),
                    decreases ids@.len() - i,
                {
                    proof {
                        assert(ids@.take(i + 1) =~= ids@.take(i as int).push(ids@[i as int]));
                        ids@.take(i as int).lemma_filter_push(ids@[i as int], pred);
                    }
                    match self.objects.get(&ids[i]) {
                        Some(o) => {
                            let ghost before = r@;
                            r.push(o);
                            assert(pred(ids@[i as int]));
                            assert(f(ids@[i as int]) == *o);
                            assert(r@.map_values(|o: &NexObject| *o) =~= before.map_values(|o: &NexObject| *o).push(*o));
                            assert(ids@.take(i + 1).filter(pred) == ids@.take(i as int).filter(pred).push(ids@[i as int]));
                            assert(ids@.take(i + 1).filter(pred).map_values(f) =~= ids@.take(i as int).filter(pred).map_values(f).push(f(ids@[i as int])));
                            assert(r@.map_values(|o: &NexObject| *o) =~= ids@.take(i + 1).filter(pred).map_values(f));
                        }
                        None => {
                            assert(r@.map_values(|o: &NexObject| *o) =~= ids@.take(i + 1).filter(pred).map_values(f));
                        }
                    }
                    i = i + 1;
                }
                assert(ids@.take(ids@.len() as int) =~= ids@);
            }
            None => {}
        }
        r
    }

    /// Marks the object tombstoned; `false` when there is no such object.
    pub fn tombstone(&mut self, object_id: &ObjectID) -> (r: bool)
        ensures
            r == old(self).objects@.contains_key(object_id@),
            r ==> final(self).objects@ == old(self).objects@.insert(object_id@,
                NexObject { tombstoned: true, ..old(self).objects@[object_id@] }),
            !r ==> final(self).objects@ == old(self).objects@,
            final(self).namespace_index@ == old(self).namespace_index@,
            final(self).owner_index@ == old(self).owner_index@,
    {
        match self.objects.remove(object_id) {
            Some(obj) => {
                let mut obj = obj;
                obj.tombstoned = true;
                self.objects.insert(*object_id, obj);
                proof {
                    assert(self.objects@ =~= old(self).objects@.insert(object_id@,
                        NexObject { tombstoned: true, ..old(self).objects@[object_id@] }));
                }
                true
            }
            None => false,
        }
    }
}

} // verus!
