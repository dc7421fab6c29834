//! Photos: media filed in the chunk store with preview and thumbnail, and albums.

use vstd::prelude::*;
use crate::bytes::{push_all, id_eq};
use crate::crypto::{sha256_spec, tagged, hash_tagged};
use crate::keyed_map::{KeyedMap, list_contains, lemma_sorted_keys_distinct};
use crate::object::types::{ObjectID, NamespaceID, ObjectType};
use crate::model::ActorID;
use crate::api::{NexAppApi, CoreRuntimeError, node_reply};
use crate::identity::types::CapabilityProof;
use crate::apps::drive::{CasChunkStore, cas_digest, file_chunk_count, file_chunk, merkle_root_of};

verus! {

/// Capture details of a photo. Floating-point readings are held as their IEEE-754
/// bit patterns (`f32::to_bits`, `f64::to_bits`): the library carries them and
/// never computes with them.
#[derive(Debug, Clone, PartialEq, Eq)]
pub struct MediaMetadata {
    pub width: u32,
    pub height: u32,
    pub capture_timestamp: u64,
    pub camera_make: String,
    pub camera_model: String,
    pub lens_model: Option<String>,
    pub iso: Option<u32>,
    pub exposure_time: Option<String>,
    pub f_number_bits: Option<u32>,
    pub gps_latitude_bits: Option<u64>,
    pub gps_longitude_bits: Option<u64>,
}

#[derive(Debug)]
pub struct PhotoMedia {
    pub media_id: ObjectID,
    pub namespace: NamespaceID,
    pub original_filename: String,
    pub mime_type: String,
    pub raw_content_root: [u8; 32],
    pub raw_chunk_digests: Vec<[u8; 32]>,
    pub raw_byte_size: u64,
    pub preview_content_root: [u8; 32],
    pub preview_chunk_digests: Vec<[u8; 32]>,
    pub thumbnail_digest: [u8; 32],
    pub metadata: MediaMetadata,
    pub created_epoch: u64,
}

#[derive(Debug)]
pub struct PhotoAlbum {
    pub album_id: ObjectID,
    pub namespace: NamespaceID,
    pub title: String,
    pub description: String,
    pub cover_media_id: Option<ObjectID>,
    pub media_items: Vec<ObjectID>,
    pub is_smart_album: bool,
}

/// What a record codec turns photo records into.
pub trait PhotoCodec {
    fn encode_photo(&self, p: &PhotoMedia) -> Result<Vec<u8>, String>;
    fn encode_album(&self, a: &PhotoAlbum) -> Result<Vec<u8>, String>;
}

/// Whether `root` and `digests` are what filing `content` in the chunk store returns.
pub open spec fn filed(root: [u8; 32], digests: Seq<[u8; 32]>, content: Seq<u8>) -> bool {
    &&& content.len() == 0 ==> digests == seq![root] && root@ == cas_digest(Seq::empty())
    &&& content.len() > 0 ==> {
        &&& digests.len() == file_chunk_count(content.len() as int)
        &&& forall|i: int| 0 <= i < digests.len() ==> (#[trigger] digests[i])@ == cas_digest(file_chunk(content, i))
        &&& root@ == merkle_root_of(digests.map_values(|d: [u8; 32]| d@))
    }
}

/// The first `n` bytes of `data`, or all of it when it is shorter.
pub open spec fn head(data: Seq<u8>, n: int) -> Seq<u8> {
    if data.len() > n { data.take(n) } else { data }
}

/// A photo's id: SHA-256 over its tag, namespace, file name and content root.
pub open spec fn media_id_of(namespace: Seq<u8>, filename: Seq<char>, root: Seq<u8>) -> Seq<u8> {
    sha256_spec(tagged("NEX/PHOTO/MEDIA/v1", namespace + vstd::utf8::encode_utf8(filename) + root))
}

/// An album's id: SHA-256 over its tag, namespace and title.
pub open spec fn album_id_of(namespace: Seq<u8>, title: Seq<char>) -> Seq<u8> {
    sha256_spec(tagged("NEX/PHOTO/ALBUM/v1", namespace + vstd::utf8::encode_utf8(title)))
}

/// The ids concatenated in order.
pub open spec fn concat_ids(ids: Seq<ObjectID>) -> Seq<u8>
    decreases ids.len(),
{
    if ids.len() == 0 { Seq::empty() } else { concat_ids(ids.drop_last()) + ids.last()@ }
}

/// The ids other than `x`, in order.
pub open spec fn without(ids: Seq<ObjectID>, x: ObjectID) -> Seq<ObjectID>
    decreases ids.len(),
{
    if ids.len() == 0 {
        ids
    } else if ids.last() == x {
        without(ids.drop_last(), x)
    } else {
        without(ids.drop_last(), x).push(ids.last())
    }
}

/// Whether two albums agree on everything but their items.
pub open spec fn same_album_but_items(a: PhotoAlbum, b: PhotoAlbum) -> bool {
    &&& a.album_id == b.album_id
    &&& a.namespace == b.namespace
    &&& a.title@ == b.title@
    &&& a.description@ == b.description@
    &&& a.cover_media_id == b.cover_media_id
    &&& a.is_smart_album == b.is_smart_album
}

fn ids_without(ids: &Vec<ObjectID>, x: &ObjectID) -> (r: Vec<ObjectID>)
    ensures
        r@ == without(ids@, *x),
{
    let mut out: Vec<ObjectID> = Vec::new();
    let mut i: usize = 0;
    while i < ids.len()
        invariant
            i <= ids@.len(),
            out@ == without(ids@.take(i as int), *x),
        decreases ids@.len() - i,
    {
        proof {
            assert(ids@.take(i + 1).drop_last() =~= ids@.take(i as int));
        }
        if !id_eq(&ids[i], x) {
            out.push(ids[i]);
        }
        i = i + 1;
    }
    assert(ids@.take(ids@.len() as int) =~= ids@);
    out
}

fn copy_ids(ids: &Vec<ObjectID>) -> (r: Vec<ObjectID>)
    ensures
        r@ == ids@,
{
    let mut out: Vec<ObjectID> = Vec::new();
    let mut i: usize = 0;
    while i < ids.len()
        invariant
            i <= ids@.len(),
            out@ == ids@.take(i as int),
        decreases ids@.len() - i,
    {
        out.push(ids[i]);
        i = i + 1;
        assert(out@ =~= ids@.take(i as int));
    }
    assert(ids@.take(ids@.len() as int) =~= ids@);
    out
}

/// Whether `v` is `p` with the same values, its location dropped unless `allow_gps`.
pub open spec fn redacted(v: PhotoMedia, p: PhotoMedia, allow_gps: bool) -> bool {
    &&& v.media_id == p.media_id
    &&& v.namespace == p.namespace
    &&& v.original_filename@ == p.original_filename@
    &&& v.mime_type@ == p.mime_type@
    &&& v.raw_content_root == p.raw_content_root
    &&& v.raw_chunk_digests@ == p.raw_chunk_digests@
    &&& v.raw_byte_size == p.raw_byte_size
    &&& v.preview_content_root == p.preview_content_root
    &&& v.preview_chunk_digests@ == p.preview_chunk_digests@
    &&& v.thumbnail_digest == p.thumbnail_digest
    &&& v.created_epoch == p.created_epoch
    &&& v.metadata.width == p.metadata.width
    &&& v.metadata.height == p.metadata.height
    &&& v.metadata.capture_timestamp == p.metadata.capture_timestamp
    &&& v.metadata.iso == p.metadata.iso
    &&& v.metadata.f_number_bits == p.metadata.f_number_bits
    &&& allow_gps ==> v.metadata.gps_latitude_bits == p.metadata.gps_latitude_bits
        && v.metadata.gps_longitude_bits == p.metadata.gps_longitude_bits
    &&& !allow_gps ==> v.metadata.gps_latitude_bits is None && v.metadata.gps_longitude_bits is None
}

pub struct NexPhotosEngine<A: NexAppApi> {
    pub namespace_id: NamespaceID,
    pub local_actor_id: ActorID,
    pub api: A,
    pub cas: CasChunkStore,
    pub photos: KeyedMap<ObjectID, PhotoMedia>,
    pub albums: KeyedMap<ObjectID, PhotoAlbum>,
}

impl<A: NexAppApi> NexPhotosEngine<A> {
    pub fn new(namespace_id: NamespaceID, local_actor_id: ActorID, api: A, cas: CasChunkStore) -> (r: Self)
        ensures
            r.namespace_id == namespace_id,
            r.local_actor_id == local_actor_id,
            r.api == api,
            r.cas == cas,
            r.photos@ == Map::<Seq<u8>, PhotoMedia>::empty(),
            r.albums@ == Map::<Seq<u8>, PhotoAlbum>::empty(),
    {
        NexPhotosEngine { namespace_id, local_actor_id, api, cas, photos: KeyedMap::new(), albums: KeyedMap::new() }
    }

    /// Files the photo, a preview (its first 1024 bytes) and a thumbnail (its
    /// first 256 bytes) in the chunk store, creates the photo's object (encoded by
    /// `codec`, with file name and type as metadata) and records the photo under
    /// its derived id. The chunks stay filed whether or not the object is created.
    pub fn import_photo<C: PhotoCodec>(
        &mut self,
        codec: &C,
        filename: &str,
        mime_type: &str,
        raw_data: &[u8],
        metadata: MediaMetadata,
    ) -> (r: Result<ObjectID, String>)
        ensures
            r is Err ==> final(self).photos@ == old(self).photos@,
            r matches Ok(id) ==> {
                let p = final(self).photos@[id@];
                &&& final(self).photos@.dom() == old(self).photos@.dom().insert(id@)
                &&& id@ == media_id_of(old(self).namespace_id@, filename@, p.raw_content_root@)
                &&& p.media_id == id
                &&& p.namespace == old(self).namespace_id
                &&& p.original_filename@ == filename@
                &&& p.mime_type@ == mime_type@
                &&& filed(p.raw_content_root, p.raw_chunk_digests@, raw_data@)
                &&& p.raw_byte_size == raw_data@.len()
                &&& filed(p.preview_content_root, p.preview_chunk_digests@, head(raw_data@, 1024))
                &&& p.thumbnail_digest@ == cas_digest(head(raw_data@, 256))
                &&& p.metadata == metadata
                &&& p.created_epoch == 0
                &&& forall|k: Seq<u8>| k != id@ && #[trigger] old(self).photos@.contains_key(k)
                    ==> final(self).photos@[k] == old(self).photos@[k]
            },
            final(self).namespace_id == old(self).namespace_id,
            final(self).albums@ == old(self).albums@,
    {
        let (raw_content_root, raw_chunk_digests) = self.cas.store_file(raw_data);
        let n = raw_data.len();
        let preview_len: usize = if n > 1024 { 1024 } else { n };
        let preview_sim = vstd::slice::slice_subrange(raw_data, 0, preview_len);
        proof {
            if n <= 1024 {
                assert(preview_sim@ =~= raw_data@);
            }
        }
        let (preview_content_root, preview_chunk_digests) = self.cas.store_file(preview_sim);
        let thumb_len: usize = if n > 256 { 256 } else { n };
        let thumb_sim = vstd::slice::slice_subrange(raw_data, 0, thumb_len);
        proof {
            if n <= 256 {
                assert(thumb_sim@ =~= raw_data@);
            }
        }
        let thumbnail_digest = self.cas.put_chunk(thumb_sim);
        let mut buf: Vec<u8> = Vec::new();
        push_all(&mut buf, self.namespace_id.as_slice());
        push_all(&mut buf, filename.as_bytes());
        push_all(&mut buf, raw_content_root.as_slice());
        let media_id = hash_tagged("NEX/PHOTO/MEDIA/v1", buf.as_slice());
        let photo = PhotoMedia {
            media_id,
            namespace: self.namespace_id,
            original_filename: filename.to_string(),
            mime_type: mime_type.to_string(),
            raw_content_root,
            raw_chunk_digests,
            raw_byte_size: n as u64,
            preview_content_root,
            preview_chunk_digests,
            thumbnail_digest,
            metadata,
            created_epoch: 0,
        };
        let encoded = match codec.encode_photo(&photo) {
            Ok(b) => b,
            Err(e) => {
                return Err(e);
            }
        };
        let mut meta: KeyedMap<String, String> = KeyedMap::new();
        meta.insert("filename".to_string(), filename.to_string());
        meta.insert("mime".to_string(), mime_type.to_string());
        let outcome = self.api.create_object(self.namespace_id, ObjectType::PhotoMedia, meta, encoded);
        let r = self.record_photo(photo, outcome);
        proof {
            if r is Ok {
                assert(self.photos@.dom() =~= old(self).photos@.dom().insert(media_id@));
            }
        }
        r
    }

    /// Applies the node's reply to creating a photo's object: on success records
    /// the photo under its own id and returns that id; on failure changes nothing.
    pub fn record_photo(&mut self, photo: PhotoMedia, outcome: Result<ObjectID, CoreRuntimeError>) -> (r: Result<ObjectID, String>)
        ensures
            outcome is Ok <==> r is Ok,
            r is Ok ==> r == Ok::<ObjectID, String>(photo.media_id)
                && final(self).photos@ == old(self).photos@.insert(photo.media_id@, photo),
            r is Err ==> final(self).photos@ == old(self).photos@,
            final(self).namespace_id == old(self).namespace_id,
            final(self).albums@ == old(self).albums@,
            final(self).cas == old(self).cas,
            final(self).api == old(self).api,
    {
        if let Err(e) = node_reply(outcome) {
            return Err(e);
        }
        let id = photo.media_id;
        self.photos.insert(id, photo);
        Ok(id)
    }

    /// Creates an album of `initial_photos` (the first one as cover) under its
    /// derived id, after creating its object (encoded by `codec`).
    pub fn create_album<C: PhotoCodec>(&mut self, codec: &C, title: &str, description: &str,
        initial_photos: Vec<ObjectID>) -> (r: Result<ObjectID, String>)
        ensures
            r is Err ==> final(self).albums@ == old(self).albums@,
            r matches Ok(id) ==> {
                let a = final(self).albums@[id@];
                &&& final(self).albums@.dom() == old(self).albums@.dom().insert(id@)
                &&& id@ == album_id_of(old(self).namespace_id@, title@)
                &&& a.album_id == id
                &&& a.namespace == old(self).namespace_id
                &&& a.title@ == title@
                &&& a.description@ == description@
                &&& a.cover_media_id == (if initial_photos@.len() > 0 { Some(initial_photos@[0]) } else { None::<ObjectID> })
                &&& a.media_items@ == initial_photos@
                &&& !a.is_smart_album
                &&& forall|k: Seq<u8>| k != id@ && #[trigger] old(self).albums@.contains_key(k)
                    ==> final(self).albums@[k] == old(self).albums@[k]
            },
            final(self).namespace_id == old(self).namespace_id,
            final(self).photos@ == old(self).photos@,
    {
        let mut buf: Vec<u8> = Vec::new();
        push_all(&mut buf, self.namespace_id.as_slice());
        push_all(&mut buf, title.as_bytes());
        let album_id = hash_tagged("NEX/PHOTO/ALBUM/v1", buf.as_slice());
        let cover = if initial_photos.len() > 0 { Some(initial_photos[0]) } else { None };
        let album = PhotoAlbum {
            album_id,
            namespace: self.namespace_id,
            title: title.to_string(),
            description: description.to_string(),
            cover_media_id: cover,
            media_items: initial_photos,
            is_smart_album: false,
        };
        let encoded = match codec.encode_album(&album) {
            Ok(b) => b,
            Err(e) => {
                return Err(e);
            }
        };
        let mut meta: KeyedMap<String, String> = KeyedMap::new();
        meta.insert("title".to_string(), title.to_string());
        let outcome = self.api.create_object(self.namespace_id, ObjectType::PhotoAlbum, meta, encoded);
        let r = self.record_album(album, outcome);
        proof {
            if r is Ok {
                assert(self.albums@.dom() =~= old(self).albums@.dom().insert(album_id@));
            }
        }
        r
    }

    /// Applies the node's reply to creating an album's object: on success records
    /// the album under its own id and returns that id; on failure changes nothing.
    pub fn record_album(&mut self, album: PhotoAlbum, outcome: Result<ObjectID, CoreRuntimeError>) -> (r: Result<ObjectID, String>)
        ensures
            outcome is Ok <==> r is Ok,
            r is Ok ==> r == Ok::<ObjectID, String>(album.album_id)
                && final(self).albums@ == old(self).albums@.insert(album.album_id@, album),
            r is Err ==> final(self).albums@ == old(self).albums@,
            final(self).namespace_id == old(self).namespace_id,
            final(self).photos@ == old(self).photos@,
            final(self).cas == old(self).cas,
            final(self).api == old(self).api,
    {
        if let Err(e) = node_reply(outcome) {
            return Err(e);
        }
        let id = album.album_id;
        self.albums.insert(id, album);
        Ok(id)
    }

    /// Appends the photo to the album unless it is already listed.
    pub fn add_photo_to_album(&mut self, album_id: ObjectID, photo_id: ObjectID) -> (r: Result<(), String>)
        ensures
            !old(self).albums@.contains_key(album_id@) ==> (r matches Err(e) && e@ == "Album not found"@
                && final(self).albums@ == old(self).albums@),
            old(self).albums@.contains_key(album_id@) ==> {
                let a = old(self).albums@[album_id@];
                let b = final(self).albums@[album_id@];
                &&& r is Ok
                &&& final(self).albums@.dom() == old(self).albums@.dom()
                &&& same_album_but_items(b, a)
                &&& b.media_items@ == (if a.media_items@.contains(photo_id) { a.media_items@ } else { a.media_items@.push(photo_id) })
                &&& forall|k: Seq<u8>| k != album_id@ && #[trigger] old(self).albums@.contains_key(k)
                    ==> final(self).albums@[k] == old(self).albums@[k]
            },
            final(self).photos@ == old(self).photos@,
    {
        match self.albums.remove(&album_id) {
            None => Err("Album not found".to_string()),
            Some(album) => {
                let mut album = album;
                if !list_contains(&album.media_items, &photo_id) {
                    album.media_items.push(photo_id);
                }
                self.albums.insert(album_id, album);
                proof {
                    assert(self.albums@.dom() =~= old(self).albums@.dom());
                }
                Ok(())
            }
        }
    }

    /// SHA-256 over the album tag, the album id and its items in order.
    pub fn compute_album_merkle_digest(&self, album_id: &ObjectID) -> (r: Result<[u8; 32], String>)
        ensures
            !self.albums@.contains_key(album_id@) ==> (r matches Err(e) && e@ == "Album not found"@),
            self.albums@.contains_key(album_id@) ==> (r matches Ok(d) && d@ == sha256_spec(tagged("NEX/PHOTO/ALBUM/v1",
                self.albums@[album_id@].album_id@ + concat_ids(self.albums@[album_id@].media_items@)))),
    {
        match self.albums.get(album_id) {
            None => Err("Album not found".to_string()),
            Some(album) => {
                let mut buf: Vec<u8> = Vec::new();
                push_all(&mut buf, album.album_id.as_slice());
                let items = &album.media_items;
                let mut i: usize = 0;
                while i < items.len()
                    invariant
                        i <= items@.len(),
                        buf@ == album.album_id@ + concat_ids(items@.take(i as int)),
                    decreases items@.len() - i,
                {
                    push_all(&mut buf, items[i].as_slice());
                    proof {
                        assert(items@.take(i + 1).drop_last() =~= items@.take(i as int));
                        assert(buf@ =~= album.album_id@ + concat_ids(items@.take(i + 1)));
                    }
                    i = i + 1;
                }
                assert(items@.take(items@.len() as int) =~= items@);
                Ok(hash_tagged("NEX/PHOTO/ALBUM/v1", buf.as_slice()))
            }
        }
    }

    /// A copy of the photo's record, its location dropped unless `allow_gps`.
    pub fn get_redacted_media_view(&self, media_id: &ObjectID, allow_gps: bool) -> (r: Result<PhotoMedia, String>)
        ensures
            !self.photos@.contains_key(media_id@) ==> (r matches Err(e) && e@ == "Photo not found"@),
            self.photos@.contains_key(media_id@) ==> (r matches Ok(v) && redacted(v, self.photos@[media_id@], allow_gps)),
    {
        match self.photos.get(media_id) {
            None => Err("Photo not found".to_string()),
            Some(p) => {
                let md = &p.metadata;
                let metadata = MediaMetadata {
                    width: md.width,
                    height: md.height,
                    capture_timestamp: md.capture_timestamp,
                    camera_make: md.camera_make.clone(),
                    camera_model: md.camera_model.clone(),
                    lens_model: md.lens_model.clone(),
                    iso: md.iso,
                    exposure_time: md.exposure_time.clone(),
                    f_number_bits: md.f_number_bits,
                    gps_latitude_bits: if allow_gps { md.gps_latitude_bits } else { None },
                    gps_longitude_bits: if allow_gps { md.gps_longitude_bits } else { None },
                };
                Ok(PhotoMedia {
                    media_id: p.media_id,
                    namespace: p.namespace,
                    original_filename: p.original_filename.clone(),
                    mime_type: p.mime_type.clone(),
                    raw_content_root: p.raw_content_root,
                    raw_chunk_digests: copy_ids(&p.raw_chunk_digests),
                    raw_byte_size: p.raw_byte_size,
                    preview_content_root: p.preview_content_root,
                    preview_chunk_digests: copy_ids(&p.preview_chunk_digests),
                    thumbnail_digest: p.thumbnail_digest,
                    metadata,
                    created_epoch: p.created_epoch,
                })
            }
        }
    }

    /// Deletes the photo's object, forgets the photo and drops it from every album;
    /// the node's error comes back as its text, with nothing changed.
    pub fn delete_photo(&mut self, media_id: ObjectID, proof: Option<CapabilityProof>) -> (r: Result<(), String>)
        ensures
            r is Err ==> final(self).photos@ == old(self).photos@ && final(self).albums@ == old(self).albums@,
            r is Ok ==> {
                &&& final(self).photos@ == old(self).photos@.remove(media_id@)
                &&& final(self).albums@.dom() == old(self).albums@.dom()
                &&& forall|k: Seq<u8>| #[trigger] old(self).albums@.contains_key(k) ==> {
                    &&& same_album_but_items(final(self).albums@[k], old(self).albums@[k])
                    &&& final(self).albums@[k].media_items@ == without(old(self).albums@[k].media_items@, media_id)
                }
            },
    {
        let outcome = self.api.delete_object(media_id, proof);
        self.apply_photo_deletion(media_id, outcome)
    }

    /// Applies the node's reply to deleting a photo: on success forgets the photo
    /// and drops it from every album; on failure changes nothing.
    pub fn apply_photo_deletion(&mut self, media_id: ObjectID, outcome: Result<[u8; 32], CoreRuntimeError>) -> (r: Result<(), String>)
        ensures
            outcome is Ok <==> r is Ok,
            final(self).api == old(self).api,
            r is Err ==> final(self).photos@ == old(self).photos@ && final(self).albums@ == old(self).albums@,
            r is Ok ==> {
                &&& final(self).photos@ == old(self).photos@.remove(media_id@)
                &&& final(self).albums@.dom() == old(self).albums@.dom()
                &&& forall|k: Seq<u8>| #[trigger] old(self).albums@.contains_key(k) ==> {
                    &&& same_album_but_items(final(self).albums@[k], old(self).albums@[k])
                    &&& final(self).albums@[k].media_items@ == without(old(self).albums@[k].media_items@, media_id)
                }
            },
    {
        if let Err(e) = node_reply(outcome) {
            return Err(e);
        }
        self.photos.remove(&media_id);
        let keys = self.albums.key_list();
        let ghost a0 = self.albums@;
        let ghost ks = self.albums.keys();
        let _ = self.albums.len();
        proof {
            lemma_sorted_keys_distinct(ks);
            assert forall|k: Seq<u8>| #[trigger] a0.contains_key(k) == ks.contains(k) by {
                if ks.contains(k) {
                    let w = choose|w: int| 0 <= w < ks.len() && ks[w] == k;
                    assert(a0.contains_key(ks[w]));
                }
            }
            assert(ks.take(0) =~= Seq::<Seq<u8>>::empty());
        }
        let n = keys.len();
        let mut i: usize = 0;
        while i < n
            invariant
                i <= n,
                n == ks.len(),
                keys@.map_values(|k: [u8; 32]| k@) == ks,
                forall|a: int, b: int| 0 <= a < b < n ==> ks[a] != ks[b],
                forall|k: Seq<u8>| #[trigger] a0.contains_key(k) == ks.contains(k),
                a0 == old(self).albums@,
                self.api == old(self).api,
                self.photos@ == old(self).photos@.remove(media_id@),
                forall|k: Seq<u8>| #[trigger] self.albums@.contains_key(k) == a0.contains_key(k),
                forall|k: Seq<u8>| #[trigger] self.albums@.contains_key(k) && !ks.take(i as int).contains(k)
                    ==> self.albums@[k] == a0[k],
                forall|k: Seq<u8>| #[trigger] self.albums@.contains_key(k) && ks.take(i as int).contains(k)
                    ==> same_album_but_items(self.albums@[k], a0[k])
                        && self.albums@[k].media_items@ == without(a0[k].media_items@, media_id),
            decreases n - i,
        {
            let k = keys[i];
            let ghost ki = ks[i as int];
            proof {
                assert(k@ == ki);
                assert(ks.contains(ki));
                if ks.take(i as int).contains(ki) {
                    let w = choose|w: int| 0 <= w < i && #[trigger] ks.take(i as int)[w] == ki;
                    assert(ks[w] == ks[i as int]);
                }
                assert forall|x: Seq<u8>| #[trigger] ks.take(i + 1).contains(x) == (ks.take(i as int).contains(x) || x == ki) by {
                    if ks.take(i + 1).contains(x) && x != ki {
                        let w = choose|w: int| 0 <= w < i + 1 && #[trigger] ks.take(i + 1)[w] == x;
                        assert(ks.take(i as int)[w] == x);
                    }
                    if ks.take(i as int).contains(x) {
                        let w = choose|w: int| 0 <= w < i && #[trigger] ks.take(i as int)[w] == x;
                        assert(ks.take(i + 1)[w] == x);
                    }
                    if x == ki {
                        assert(ks.take(i + 1)[i as int] == x);
                    }
                }
            }
            match self.albums.remove(&k) {
                Some(a) => {
                    let items = ids_without(&a.media_items, &media_id);
                    let updated = PhotoAlbum { media_items: items, ..a };
                    self.albums.insert(k, updated);
                }
                None => {}
            }
            i = i + 1;
        }
        proof {
            assert(ks.take(n as int) =~= ks);
            assert(self.albums@.dom() =~= old(self).albums@.dom());
        }
        Ok(())
    }
}

} // verus!
