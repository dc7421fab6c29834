//! Map tiles addressed by zoom and position.

use vstd::prelude::*;
use crate::bytes::{push_all, be_bytes, be_vec};
use crate::crypto::{sha256_spec, tagged, hash_tagged};
use crate::keyed_map::KeyedMap;
use crate::encoding::{hex_encode, hex_lower};
use crate::text::{decimal_text, decimal};
use crate::object::types::{ObjectID, NamespaceID, ObjectType};
use crate::api::{NexAppApi, runtime_error_text};
use crate::apps::drive::{CasChunkStore, chunk_views, put_view};

verus! {

#[derive(Debug, Clone, Copy, PartialEq, Eq, PartialOrd, Ord, Hash)]
pub struct TileCoordinate {
    pub zoom: u8,
    pub x: u32,
    pub y: u32,
}

/// The bytes a tile's key is hashed from: zoom, then x and y big-endian.
pub open spec fn tile_key_bytes(zoom: u8, x: u32, y: u32) -> Seq<u8> {
    seq![zoom] + be_bytes(x as nat, 4) + be_bytes(y as nat, 4)
}

impl TileCoordinate {
    pub fn new(zoom: u8, x: u32, y: u32) -> (r: Self)
        ensures
            r == (TileCoordinate { zoom, x, y }),
    {
        TileCoordinate { zoom, x, y }
    }

    /// The content address of the tile at this coordinate.
    pub fn cas_key(&self) -> (r: [u8; 32])
        ensures
            r@ == sha256_spec(tagged("NEX/MAPS/TILE/v1", tile_key_bytes(self.zoom, self.x, self.y))),
    {
        let mut buf: Vec<u8> = Vec::new();
        buf.push(self.zoom);
        let xb = be_vec(self.x as u64, 4);
        push_all(&mut buf, xb.as_slice());
        let yb = be_vec(self.y as u64, 4);
        push_all(&mut buf, yb.as_slice());
        assert(buf@ =~= tile_key_bytes(self.zoom, self.x, self.y));
        hash_tagged("NEX/MAPS/TILE/v1", buf.as_slice())
    }
}


/// Storing map data on a node.
pub struct NexMapsService;

impl NexMapsService {
    /// The namespace map records are stored in: 32 bytes of 0xAA.
    pub fn maps_namespace() -> (r: NamespaceID)
        ensures
            r@ == Seq::new(32, |i: int| 0xAAu8),
    {
        let r = [0xAAu8; 32];
        assert(r@ =~= Seq::new(32, |i: int| 0xAAu8));
        r
    }

    /// The metadata a tile record carries: zoom, x and y in decimal, and the
    /// tile's chunk digest in hex.
    pub fn tile_metadata(coord: TileCoordinate, chunk_digest: &[u8; 32]) -> (r: KeyedMap<String, String>)
        ensures
            r@.dom() == set![vstd::utf8::encode_utf8("zoom"@), vstd::utf8::encode_utf8("x"@),
                vstd::utf8::encode_utf8("y"@), vstd::utf8::encode_utf8("tile_hash"@)],
            r@[vstd::utf8::encode_utf8("zoom"@)]@ == decimal(coord.zoom as nat),
            r@[vstd::utf8::encode_utf8("x"@)]@ == decimal(coord.x as nat),
            r@[vstd::utf8::encode_utf8("y"@)]@ == decimal(coord.y as nat),
            r@[vstd::utf8::encode_utf8("tile_hash"@)]@ == hex_lower(chunk_digest@),
    {
        proof {
            reveal_strlit("zoom");
            reveal_strlit("x");
            reveal_strlit("y");
            reveal_strlit("tile_hash");
            broadcast use vstd::utf8::encode_utf8_decode_utf8;
            assert(vstd::utf8::decode_utf8(vstd::utf8::encode_utf8("zoom"@)) == "zoom"@);
            assert(vstd::utf8::decode_utf8(vstd::utf8::encode_utf8("x"@)) == "x"@);
            assert(vstd::utf8::decode_utf8(vstd::utf8::encode_utf8("y"@)) == "y"@);
            assert(vstd::utf8::decode_utf8(vstd::utf8::encode_utf8("tile_hash"@)) == "tile_hash"@);
        }
        let mut meta: KeyedMap<String, String> = KeyedMap::new();
        meta.insert("zoom".to_string(), decimal_text(coord.zoom as u64));
        meta.insert("x".to_string(), decimal_text(coord.x as u64));
        meta.insert("y".to_string(), decimal_text(coord.y as u64));
        meta.insert("tile_hash".to_string(), hex_encode(chunk_digest.as_slice()));
        proof {
            assert(meta@.dom() =~= set![vstd::utf8::encode_utf8("zoom"@), vstd::utf8::encode_utf8("x"@),
                vstd::utf8::encode_utf8("y"@), vstd::utf8::encode_utf8("tile_hash"@)]);
        }
        meta
    }

    /// Files a vector tile in the chunk store (kept if already there), then records
    /// it on the node in the maps namespace as a tile object carrying the tile's
    /// bytes and `tile_metadata` of its coordinate and chunk digest; the node's
    /// error comes back as its text.
    pub fn store_vector_tile<A: NexAppApi>(node: &mut A, cas: &mut CasChunkStore, coord: TileCoordinate, tile_data: Vec<u8>)
        -> (r: Result<ObjectID, String>)
        ensures
            chunk_views(final(cas).chunks@) == put_view(chunk_views(old(cas).chunks@), tile_data@),
    {
        let chunk_digest = cas.put_chunk(tile_data.as_slice());
        let meta = Self::tile_metadata(coord, &chunk_digest);
        match node.create_object(Self::maps_namespace(), ObjectType::Synthetic(11), meta, tile_data) {
            Ok(id) => Ok(id),
            Err(e) => Err(runtime_error_text(&e)),
        }
    }
}

} // verus!
