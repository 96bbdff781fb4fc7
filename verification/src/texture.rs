//! One-shot conversion of a flat tileset atlas into an array texture.
//!
//! The atlas is sliced into `tile_size` x `tile_size` tiles in row-major
//! tile order, and the tiles are repacked back to back as layers, so a
//! renderer can address a tile by integer layer index instead of atlas
//! coordinates.  Pixels are four bytes; partial tiles at the right or
//! bottom edge of the atlas are dropped, as is any content beyond the last
//! whole tile row.

use vstd::prelude::*;
use vstd::arithmetic::div_mod::{
    lemma_fundamental_div_mod, lemma_fundamental_div_mod_converse_div,
    lemma_fundamental_div_mod_converse_mod,
};

verus! {

/// The flat atlas byte offset that byte `o` of the array texture copies.
/// Byte `o` decomposes into a channel, a pixel within a tile, and a tile
/// layer; the layer decomposes into its row and column in the atlas.
pub open spec fn source_index_spec(width: int, tile_size: int, tiles_x: int, o: int) -> int {
    let ch = o % 4;
    let p = o / 4;
    let px = p % tile_size;
    let q = p / tile_size;
    let py = q % tile_size;
    let t = q / tile_size;
    let tx = t % tiles_x;
    let ty = t / tiles_x;
    ((ty * tile_size + py) * width + (tx * tile_size + px)) * 4 + ch
}

/// A texture as the converter sees it: pixel dimensions, the number of
/// depth layers, and the raw four-byte-per-pixel data.
#[derive(Clone, Debug)]
pub struct TilesetImage {
    pub width: u32,
    pub height: u32,
    pub layers: u32,
    pub data: Vec<u8>,
}

/// Converts a freshly loaded flat tileset texture into a depth-indexed
/// array texture, in place: each whole `tile_size` x `tile_size` tile of
/// the atlas becomes one layer, in row-major tile order.  An image that
/// already has more than one layer has been converted before, and is left
/// untouched.
pub fn convert_tileset_to_array(img: &mut TilesetImage, tile_size: u32)
    requires
        1 <= tile_size,
        old(img).layers <= 1 ==> old(img).data@.len() == old(img).width as int * old(
            img,
        ).height as int * 4,
        old(img).layers <= 1 ==> (old(img).width as int / tile_size as int) * (old(
            img,
        ).height as int / tile_size as int) <= u32::MAX,
    ensures
        old(img).layers > 1 ==> *final(img) == *old(img),
        old(img).layers <= 1 ==> final(img).width == tile_size && final(img).height == tile_size
            && final(img).layers == (old(img).width as int / tile_size as int) * (old(
            img,
        ).height as int / tile_size as int) && final(img).data@ == repack_spec(
            old(img).data@,
            old(img).width as int,
            old(img).height as int,
            tile_size as int,
        ),
{
    if img.layers > 1 {
        return ;
    }
    let tiles_x: u32 = img.width / tile_size;
    let tiles_y: u32 = img.height / tile_size;
    proof {
        assert(tiles_x * tiles_y <= u32::MAX);
    }
    let repacked: Vec<u8> = repack_tiles(&img.data, img.width, img.height, tile_size);
    proof {
        assert(repacked@ =~= repack_spec(
            img.data@,
            img.width as int,
            img.height as int,
            tile_size as int,
        ));
    }
    img.width = tile_size;
    img.height = tile_size;
    img.layers = tiles_x * tiles_y;
    img.data = repacked;
}

/// The array-texture bytes that repacking an atlas produces: one byte per
/// output offset, each copied from its source offset.
pub open spec fn repack_spec(data: Seq<u8>, width: int, height: int, tile_size: int) -> Seq<u8> {
    Seq::new(
        ((width / tile_size) * (height / tile_size) * tile_size * tile_size * 4) as nat,
        |o: int| data[source_index_spec(width, tile_size, width / tile_size, o)],
    )
}

/// Repacks a `width` x `height` four-byte-per-pixel atlas into one buffer
/// holding its whole tiles as consecutive `tile_size` x `tile_size`
/// layers, in row-major tile order.
pub fn repack_tiles(data: &Vec<u8>, width: u32, height: u32, tile_size: u32) -> (r: Vec<u8>)
    requires
        1 <= tile_size,
        data@.len() == width as int * height as int * 4,
    ensures
        r@.len() == (width as int / tile_size as int) * (height as int / tile_size as int)
            * (tile_size as int) * (tile_size as int) * 4,
        forall|o: int|
            0 <= o < r@.len() ==> r@[o] == data@[source_index_spec(
                width as int,
                tile_size as int,
                width as int / tile_size as int,
                o,
            )],
{
    let dlen: usize = data.len();
    let tiles_x: u32 = width / tile_size;
    let tiles_y: u32 = height / tile_size;
    let ts: u32 = tile_size;
    let ghost w = width as int;
    let ghost h = height as int;
    let ghost txs = tiles_x as int;
    let ghost tys = tiles_y as int;
    let ghost tsi = ts as int;
    proof {
        lemma_fundamental_div_mod(w, tsi);
        lemma_fundamental_div_mod(h, tsi);
        assert(txs * tsi <= w && tys * tsi <= h) by (nonlinear_arith)
            requires
                w == tsi * txs + w % tsi,
                h == tsi * tys + h % tsi,
                w % tsi >= 0,
                h % tsi >= 0,
        ;
        assert(txs * tys * tsi * tsi * 4 <= w * h * 4) by (nonlinear_arith)
            requires
                txs * tsi <= w,
                tys * tsi <= h,
                txs >= 0,
                tys >= 0,
                tsi >= 1,
        ;
    }
    let mut out: Vec<u8> = Vec::new();
    let mut ty: u32 = 0;
    while ty < tiles_y
        invariant
            tile_size == ts,
            1 <= tsi == ts,
            txs == tiles_x,
            tys == tiles_y,
            w == width,
            h == height,
            txs == w / tsi,
            txs * tsi <= w,
            tys * tsi <= h,
            data@.len() == w * h * 4,
            data@.len() <= usize::MAX,
            0 <= ty <= tys,
            out@.len() == ty * (txs * tsi * tsi * 4),
            forall|o: int|
                0 <= o < out@.len() ==> out@[o] == data@[source_index_spec(w, tsi, txs, o)],
        decreases tys - ty,
    {
        proof {
            assert((ty * txs) * (tsi * tsi * 4) == ty * (txs * tsi * tsi * 4))
                by (nonlinear_arith);
        }
        let mut tx: u32 = 0;
        while tx < tiles_x
            invariant
                tile_size == ts,
                1 <= tsi == ts,
                txs == tiles_x,
                tys == tiles_y,
                w == width,
                h == height,
                txs == w / tsi,
                txs * tsi <= w,
                tys * tsi <= h,
                data@.len() == w * h * 4,
                data@.len() <= usize::MAX,
            data@.len() <= usize::MAX,
                ty < tys,
                0 <= tx <= txs,
                out@.len() == (ty * txs + tx) * (tsi * tsi * 4),
                forall|o: int|
                    0 <= o < out@.len() ==> out@[o] == data@[source_index_spec(w, tsi, txs, o)],
            decreases txs - tx,
        {
            proof {
                assert(((ty * txs + tx) * tsi) * (tsi * 4) == (ty * txs + tx) * (tsi * tsi * 4))
                    by (nonlinear_arith);
            }
            let mut py: u32 = 0;
            while py < ts
                invariant
                    tile_size == ts,
                    1 <= tsi == ts,
                    txs == tiles_x,
                    tys == tiles_y,
                    w == width,
                    h == height,
                    txs == w / tsi,
                    txs * tsi <= w,
                    tys * tsi <= h,
                    data@.len() == w * h * 4,
                    data@.len() <= usize::MAX,
                data@.len() <= usize::MAX,
            data@.len() <= usize::MAX,
                    ty < tys,
                    tx < txs,
                    0 <= py <= tsi,
                    out@.len() == ((ty * txs + tx) * tsi + py) * (tsi * 4),
                    forall|o: int|
                        0 <= o < out@.len() ==> out@[o] == data@[source_index_spec(
                            w,
                            tsi,
                            txs,
                            o,
                        )],
                decreases tsi - py,
            {
                proof {
                    assert((((ty * txs + tx) * tsi + py) * tsi) * 4 == ((ty * txs + tx) * tsi
                        + py) * (tsi * 4)) by (nonlinear_arith);
                }
                let mut px: u32 = 0;
                while px < ts
                    invariant
                        tile_size == ts,
                        1 <= tsi == ts,
                        txs == tiles_x,
                        tys == tiles_y,
                        w == width,
                        h == height,
                        txs == w / tsi,
                        txs * tsi <= w,
                        tys * tsi <= h,
                        data@.len() == w * h * 4,
                        data@.len() <= usize::MAX,
                    data@.len() <= usize::MAX,
                data@.len() <= usize::MAX,
            data@.len() <= usize::MAX,
                        ty < tys,
                        tx < txs,
                        py < tsi,
                        0 <= px <= tsi,
                        out@.len() == (((ty * txs + tx) * tsi + py) * tsi + px) * 4,
                        forall|o: int|
                            0 <= o < out@.len() ==> out@[o] == data@[source_index_spec(
                                w,
                                tsi,
                                txs,
                                o,
                            )],
                    decreases tsi - px,
                {
                    proof {
                        assert(0 <= tx * tsi + px < w && 0 <= ty * tsi + py < h)
                            by (nonlinear_arith)
                            requires
                                0 <= tx < txs,
                                0 <= ty < tys,
                                0 <= px < tsi,
                                0 <= py < tsi,
                                txs * tsi <= w,
                                tys * tsi <= h,
                        ;
                    }
                    let sx: u64 = tx as u64 * ts as u64 + px as u64;
                    let sy: u64 = ty as u64 * ts as u64 + py as u64;
                    proof {
                        assert((sy * w + sx) * 4 + 3 < w * h * 4) by (nonlinear_arith)
                            requires
                                0 <= sx < w,
                                0 <= sy < h,
                        ;
                    }
                    let base: u64 = (sy * width as u64 + sx) * 4;
                    let mut ch: u32 = 0;
                    while ch < 4
                        invariant
                            tile_size == ts,
                            1 <= tsi == ts,
                            txs == tiles_x,
                            tys == tiles_y,
                            w == width,
                            h == height,
                            txs == w / tsi,
                            txs * tsi <= w,
                            tys * tsi <= h,
                            data@.len() == w * h * 4,
                            data@.len() <= usize::MAX,
                        data@.len() <= usize::MAX,
                    data@.len() <= usize::MAX,
                data@.len() <= usize::MAX,
            data@.len() <= usize::MAX,
                            ty < tys,
                            tx < txs,
                            py < tsi,
                            px < tsi,
                            0 <= ch <= 4,
                            sx == tx * tsi + px,
                            sy == ty * tsi + py,
                            sx < w,
                            sy < h,
                            base == (sy * w + sx) * 4,
                            base + 3 < data@.len(),
                            out@.len() == (((ty * txs + tx) * tsi + py) * tsi + px) * 4 + ch,
                                    forall|o: int|
                                0 <= o < out@.len() ==> out@[o] == data@[source_index_spec(
                                    w,
                                    tsi,
                                    txs,
                                    o,
                                )],
                        decreases 4 - ch,
                    {
                        let si: u64 = base + ch as u64;
                        let b: u8 = data[si as usize];
                        proof {
                            let o: int = out@.len() as int;
                            let t: int = ty * txs + tx;
                            let q: int = t * tsi + py;
                            let p: int = q * tsi + px;
                            lemma_fundamental_div_mod_converse_mod(o, 4, p, ch as int);
                            lemma_fundamental_div_mod_converse_div(o, 4, p, ch as int);
                            lemma_fundamental_div_mod_converse_mod(p, tsi, q, px as int);
                            lemma_fundamental_div_mod_converse_div(p, tsi, q, px as int);
                            lemma_fundamental_div_mod_converse_mod(q, tsi, t, py as int);
                            lemma_fundamental_div_mod_converse_div(q, tsi, t, py as int);
                            lemma_fundamental_div_mod_converse_mod(t, txs, ty as int, tx as int);
                            lemma_fundamental_div_mod_converse_div(t, txs, ty as int, tx as int);
                            assert(source_index_spec(w, tsi, txs, o) == si);
                        }
                        out.push(b);
                        ch = ch + 1;
                    }
                    proof {
                        assert((((ty * txs + tx) * tsi + py) * tsi + (px + 1)) * 4 == (((ty * txs
                            + tx) * tsi + py) * tsi + px) * 4 + 4) by (nonlinear_arith);
                    }
                    px = px + 1;
                }
                proof {
                    assert(((ty * txs + tx) * tsi + (py + 1)) * (tsi * 4) == (((ty * txs + tx)
                        * tsi + py) * tsi + tsi) * 4) by (nonlinear_arith);
                }
                py = py + 1;
            }
            proof {
                assert((ty * txs + (tx + 1)) * (tsi * tsi * 4) == ((ty * txs + tx) * tsi + tsi) * (
                tsi * 4)) by (nonlinear_arith);
            }
            tx = tx + 1;
        }
        proof {
            assert((ty + 1) * (txs * tsi * tsi * 4) == (ty * txs + txs) * (tsi * tsi * 4))
                by (nonlinear_arith);
        }
        ty = ty + 1;
    }
    proof {
        assert(tys * (txs * tsi * tsi * 4) == txs * tys * tsi * tsi * 4) by (nonlinear_arith);
    }
    out
}

} // verus!
