//! What the tessellation core knows of the texture atlas: for a key, the
//! texture that holds its tile and where in that texture the tile lies. The
//! core looks tiles up; it never packs or evicts them.

use crate::math::div_trunc;
use crate::mesh::AtlasKey;
use crate::mesh::Uv;
use crate::mesh::UV_ONE;
use vstd::prelude::*;

verus! {

/// The part of a texture that a tile fills, in texture coordinates of
/// sixteen fractional bits.
#[derive(Debug, Clone, Copy, PartialEq, Eq, Structural)]
pub struct UvRect {
    pub x: i32,
    pub y: i32,
    pub width: i32,
    pub height: i32,
}

/// A tile of the atlas.
#[derive(Debug, Clone, Copy, PartialEq, Eq, Structural)]
pub struct AtlasTile {
    /// The texture that holds the tile.
    pub texture: u32,
    /// Where in that texture the tile lies.
    pub uv_rect: UvRect,
}

/// What the atlas tells of one key.
#[derive(Debug, Clone, Copy, PartialEq, Eq, Structural)]
pub struct AtlasTextureInfo {
    pub tile: AtlasTile,
}

/// A coordinate of the tile space, placed in the space of the texture.
pub open spec fn to_atlas(v: int, start: int, extent: int) -> int {
    start + div_trunc(v * extent, UV_ONE as int)
}

/// `v`, kept within 48 bits.
pub open spec fn clamp_uv(v: int) -> int {
    if v < -0x8000_0000_0000 {
        -0x8000_0000_0000
    } else if v > 0x8000_0000_0000 {
        0x8000_0000_0000
    } else {
        v
    }
}

fn to_atlas_exec(v: i64, start: i32, extent: i32) -> (r: i64)
    ensures
        r == to_atlas(clamp_uv(v as int), start as int, extent as int),
{
    let c: i64 = if v < -0x8000_0000_0000 {
        -0x8000_0000_0000
    } else if v > 0x8000_0000_0000 {
        0x8000_0000_0000
    } else {
        v
    };
    let e: i128 = extent as i128;
    assert(-0x4000_0000_0000_0000_0000 <= (c as i128) * e <= 0x4000_0000_0000_0000_0000)
        by (nonlinear_arith)
        requires
            -0x8000_0000_0000 <= c <= 0x8000_0000_0000,
            -0x8000_0000 <= e <= 0x8000_0000,
    ;
    let product: i128 = (c as i128) * e;
    let q: i128 = if product >= 0 {
        product / (UV_ONE as i128)
    } else {
        -((-product) / (UV_ONE as i128))
    };
    (start as i128 + q) as i64
}

impl AtlasTextureInfo {
    /// The texture coordinate `uv` of the tile, as a coordinate of the
    /// texture that holds the tile.
    pub open spec fn in_atlas(&self, uv: Uv) -> Uv {
        Uv {
            u: to_atlas(
                clamp_uv(uv.u as int),
                self.tile.uv_rect.x as int,
                self.tile.uv_rect.width as int,
            ) as i64,
            v: to_atlas(
                clamp_uv(uv.v as int),
                self.tile.uv_rect.y as int,
                self.tile.uv_rect.height as int,
            ) as i64,
        }
    }

    /// The texture coordinate `uv` of the tile, as a coordinate of the
    /// texture that holds the tile.
    pub fn uv_to_atlas_space(&self, uv: Uv) -> (r: Uv)
        ensures
            r == self.in_atlas(uv),
    {
        Uv {
            u: to_atlas_exec(uv.u, self.tile.uv_rect.x, self.tile.uv_rect.width),
            v: to_atlas_exec(uv.v, self.tile.uv_rect.y, self.tile.uv_rect.height),
        }
    }
}

/// One entry of the table.
#[derive(Debug, Clone, Copy, PartialEq, Eq, Structural)]
pub struct AtlasEntry {
    pub key: AtlasKey,
    pub info: AtlasTextureInfo,
}

/// The first entry of `entries` under `key`, if there is one.
pub open spec fn found_in(entries: Seq<AtlasEntry>, key: AtlasKey) -> Option<AtlasTextureInfo>
    decreases entries.len(),
{
    if entries.len() == 0 {
        None
    } else if entries[0].key == key {
        Some(entries[0].info)
    } else {
        found_in(entries.skip(1), key)
    }
}

/// The tiles that are known, by key.
pub struct AtlasTextureInfoMap {
    entries: Vec<AtlasEntry>,
}

impl AtlasTextureInfoMap {
    /// What the table tells of `key`.
    pub closed spec fn info_of(&self, key: AtlasKey) -> Option<AtlasTextureInfo> {
        found_in(self.entries@, key)
    }

    /// A table without entries.
    pub fn new() -> (map: Self)
        ensures
            forall|key: AtlasKey| map.info_of(key) is None,
    {
        AtlasTextureInfoMap { entries: Vec::new() }
    }

    /// What the table tells of `key`.
    pub fn get(&self, key: &AtlasKey) -> (info: Option<AtlasTextureInfo>)
        ensures
            info == self.info_of(*key),
    {
        let mut i: usize = 0;
        assert(self.entries@.skip(0) =~= self.entries@);
        while i < self.entries.len()
            invariant
                i <= self.entries@.len(),
                found_in(self.entries@, *key) == found_in(self.entries@.skip(i as int), *key),
            decreases self.entries@.len() - i,
        {
            if self.entries[i].key == *key {
                return Some(self.entries[i].info);
            }
            assert(self.entries@.skip(i as int).skip(1) =~= self.entries@.skip(i as int + 1));
            i += 1;
        }
        None
    }

    /// Whether the table tells anything of `key`.
    pub fn contains_key(&self, key: &AtlasKey) -> (known: bool)
        ensures
            known == self.info_of(*key) is Some,
    {
        self.get(key).is_some()
    }

    /// Records `info` for `key`, unless the table tells of `key` already.
    /// Returns whether it was recorded.
    pub fn insert(&mut self, key: AtlasKey, info: AtlasTextureInfo) -> (recorded: bool)
        ensures
            recorded == old(self).info_of(key) is None,
            final(self).info_of(key) == if recorded {
                Some(info)
            } else {
                old(self).info_of(key)
            },
            forall|other: AtlasKey| other != key ==> final(self).info_of(other) == old(self).info_of(other),
    {
        if self.contains_key(&key) {
            return false;
        }
        proof {
            lemma_found_push(self.entries@, AtlasEntry { key, info }, key);
            assert forall|other: AtlasKey| other != key implies found_in(
                self.entries@.push(AtlasEntry { key, info }),
                other,
            ) == found_in(self.entries@, other) by {
                lemma_found_push(self.entries@, AtlasEntry { key, info }, other);
            }
        }
        self.entries.push(AtlasEntry { key, info });
        true
    }
}

/// What a table tells after an entry was appended: what it told before,
/// and the new entry for a key that it told nothing of.
pub proof fn lemma_found_push(entries: Seq<AtlasEntry>, entry: AtlasEntry, key: AtlasKey)
    ensures
        found_in(entries.push(entry), key) == match found_in(entries, key) {
            Some(info) => Some(info),
            None => if entry.key == key {
                Some(entry.info)
            } else {
                None
            },
        },
    decreases entries.len(),
{
    if entries.len() == 0 {
        assert(entries.push(entry).skip(1) =~= entries);
    } else {
        assert(entries.push(entry).skip(1) =~= entries.skip(1).push(entry));
        if entries[0].key != key {
            lemma_found_push(entries.skip(1), entry, key);
        }
    }
}

} // verus!
