//! Where the files, pictures and masks of the segmentation model are found.

use crate::numbers::Real;
use crate::paths::join_path;
use crate::sam_cache::{
    best_partial, best_score, checkpoint_in, complete_dir, encoder_input, has_file, is_checkpoint,
    lacking, lemma_best_score, mask_at, mask_dims, missing_in, required, scaled_mask,
    DirectoryListing, MaskRegion,
};
use vstd::prelude::*;

verus! {

// --------------------------------------------------------------------- files
proof fn lemma_lacking(d: DirectoryListing, n: nat, name: Seq<char>)
    requires
        n <= 3,
    ensures
        lacking(d, n).contains(name) <==> !has_file(d, name) && exists|k: int|
            0 <= k < n && #[trigger] required()[k] == name,
    decreases n,
{
    if n > 0 {
        let m = (n - 1) as nat;
        let front = lacking(d, m);
        let all = lacking(d, n);
        lemma_lacking(d, m, name);
        if front.contains(name) {
            let k = choose|k: int| 0 <= k < front.len() && front[k] == name;
            assert(all[k] == name);
        }
        if required()[n - 1] == name && !has_file(d, name) {
            assert(all[all.len() - 1] == name);
        }
        if all.contains(name) && !front.contains(name) {
            let k = choose|k: int| 0 <= k < all.len() && all[k] == name;
            if k < front.len() {
                assert(front[k] == name);
            }
            assert(required()[n - 1] == name);
        }
        if exists|k: int| 0 <= k < n && #[trigger] required()[k] == name {
            let k = choose|k: int| 0 <= k < n && #[trigger] required()[k] == name;
            assert(k < m || k == n - 1);
        }
    }
}

/// A directory lacks the required files that it does not have. It lacks none only where it has all.
pub proof fn lemma_missing(d: DirectoryListing, name: Seq<char>)
    ensures
        missing_in(d).contains(name) <==> required().contains(name) && !has_file(d, name),
        missing_in(d).len() == 0 <==> forall|k: int|
            0 <= k < 3 ==> has_file(d, #[trigger] required()[k]),
{
    lemma_lacking(d, 3, name);
    if missing_in(d).len() == 0 {
        assert forall|k: int| 0 <= k < 3 implies has_file(d, #[trigger] required()[k]) by {
            lemma_lacking(d, 3, required()[k]);
        }
    } else {
        let x = missing_in(d)[0];
        assert(missing_in(d).contains(x));
        lemma_lacking(d, 3, x);
    }
}

/// The model is found in the first directory that has all its files, and only where one has.
pub proof fn lemma_complete_dir(dirs: Seq<DirectoryListing>)
    ensures
        match complete_dir(dirs) {
            Some(d) => exists|k: int|
                0 <= k < dirs.len() && (#[trigger] dirs[k]).dir@ == d && missing_in(dirs[k]).len()
                    == 0 && forall|j: int|
                    0 <= j < k ==> missing_in(#[trigger] dirs[j]).len() > 0,
            None => forall|k: int| 0 <= k < dirs.len() ==> missing_in(#[trigger] dirs[k]).len() > 0,
        },
    decreases dirs.len(),
{
    if dirs.len() > 0 {
        let rest = dirs.drop_first();
        if missing_in(dirs[0]).len() > 0 {
            lemma_complete_dir(rest);
            match complete_dir(rest) {
                Some(d) => {
                    let k = choose|k: int|
                        0 <= k < rest.len() && (#[trigger] rest[k]).dir@ == d && missing_in(
                            rest[k],
                        ).len() == 0 && forall|j: int|
                            0 <= j < k ==> missing_in(#[trigger] rest[j]).len() > 0;
                    assert(dirs[k + 1] == rest[k]);
                    assert forall|j: int| 0 <= j < k + 1 implies missing_in(
                        #[trigger] dirs[j],
                    ).len() > 0 by {
                        if j > 0 {
                            assert(rest[j - 1] == dirs[j]);
                        }
                    }
                },
                None => {
                    assert forall|k: int| 0 <= k < dirs.len() implies missing_in(
                        #[trigger] dirs[k],
                    ).len() > 0 by {
                        if k > 0 {
                            assert(rest[k - 1] == dirs[k]);
                        }
                    }
                },
            }
        }
    }
}

/// Of the directories that have some of the files, the one that lacks the fewest counts.
pub proof fn lemma_best_partial(dirs: Seq<DirectoryListing>, k: int)
    requires
        0 <= k < dirs.len(),
        0 < missing_in(dirs[k]).len() < 3,
    ensures
        best_partial(dirs) matches Some(m) && m.len() <= missing_in(dirs[k]).len() && exists|j: int|
            0 <= j < dirs.len() && missing_in(#[trigger] dirs[j]) == m,
    decreases dirs.len(),
{
    let front = dirs.drop_last();
    if k < front.len() {
        assert(front[k] == dirs[k]);
        lemma_best_partial(front, k);
        let m = best_partial(front)->Some_0;
        let j = choose|j: int| 0 <= j < front.len() && missing_in(#[trigger] front[j]) == m;
        assert(dirs[j] == front[j]);
        assert(dirs[dirs.len() - 1] == dirs.last());
    } else {
        assert(dirs[k] == dirs.last());
        lemma_best_partial_is_there(front);
        if best_partial(front) is Some {
            let m = best_partial(front)->Some_0;
            let j = choose|j: int| 0 <= j < front.len() && missing_in(#[trigger] front[j]) == m;
            assert(dirs[j] == front[j]);
        }
    }
}

/// What a partial install lacks is what one of the directories lacks, which has something.
pub proof fn lemma_best_partial_is_there(dirs: Seq<DirectoryListing>)
    ensures
        best_partial(dirs) matches Some(m) ==> 0 < m.len() < 3 && exists|j: int|
            0 <= j < dirs.len() && missing_in(#[trigger] dirs[j]) == m,
    decreases dirs.len(),
{
    if dirs.len() > 0 {
        let front = dirs.drop_last();
        lemma_best_partial_is_there(front);
        assert(dirs[dirs.len() - 1] == dirs.last());
        if best_partial(front) is Some {
            let m = best_partial(front)->Some_0;
            let j = choose|j: int| 0 <= j < front.len() && missing_in(#[trigger] front[j]) == m;
            assert(dirs[j] == front[j]);
        }
    }
}

/// A checkpoint is found where there is one: the first of the files that is one.
pub proof fn lemma_checkpoint_in(dir: Seq<char>, files: Seq<Seq<char>>)
    ensures
        match checkpoint_in(dir, files) {
            Some(p) => exists|k: int|
                0 <= k < files.len() && is_checkpoint(#[trigger] files[k]) && p == join_path(
                    dir,
                    files[k],
                ) && forall|j: int| 0 <= j < k ==> !is_checkpoint(#[trigger] files[j]),
            None => forall|k: int| 0 <= k < files.len() ==> !is_checkpoint(#[trigger] files[k]),
        },
    decreases files.len(),
{
    if files.len() > 0 && !is_checkpoint(files[0]) {
        let rest = files.drop_first();
        lemma_checkpoint_in(dir, rest);
        match checkpoint_in(dir, rest) {
            Some(p) => {
                let k = choose|k: int|
                    0 <= k < rest.len() && is_checkpoint(#[trigger] rest[k]) && p == join_path(
                        dir,
                        rest[k],
                    ) && forall|j: int| 0 <= j < k ==> !is_checkpoint(#[trigger] rest[j]);
                assert(files[k + 1] == rest[k]);
                assert forall|j: int| 0 <= j < k + 1 implies !is_checkpoint(#[trigger] files[j]) by {
                    if j > 0 {
                        assert(rest[j - 1] == files[j]);
                    }
                }
            },
            None => {
                assert forall|k: int| 0 <= k < files.len() implies !is_checkpoint(
                    #[trigger] files[k],
                ) by {
                    if k > 0 {
                        assert(rest[k - 1] == files[k]);
                    }
                }
            },
        }
    }
}

// ------------------------------------------------------------------ pictures
/// The encoder gets three planes, one for each colour. Where the picture reaches, the value at a
/// row and column is that colour of the pixel of the source that is sampled there; elsewhere it is
/// black.
pub proof fn lemma_encoder_input(
    rgb: Seq<u8>,
    src_w: nat,
    src_h: nat,
    rows: Seq<usize>,
    cols: Seq<usize>,
    c: int,
    y: int,
    x: int,
)
    requires
        0 <= c < 3,
        0 <= y < 1008,
        0 <= x < 1008,
        rows.len() <= 1008,
        cols.len() <= 1008,
        forall|k: int| 0 <= k < rows.len() ==> #[trigger] rows[k] < src_h,
        forall|k: int| 0 <= k < cols.len() ==> #[trigger] cols[k] < src_w,
    ensures
        ({
            let r = encoder_input(rgb, src_w, src_h, rows, cols);
            let at = c * 1_016_064 + y * 1008 + x;
            &&& r.len() == 3_048_192
            &&& 0 <= at < r.len()
            &&& y < rows.len() && x < cols.len() ==> r[at] == rgb[(rows[y] * src_w + cols[x]) * 3
                + c]
            &&& y >= rows.len() || x >= cols.len() ==> r[at] == 0
        }),
{
    let at = c * 1_016_064 + y * 1008 + x;
    assert(at / 1_016_064 == c);
    assert(at % 1008 == x);
    assert(at / 1008 == c * 1008 + y);
    assert(at / 1008 % 1008 == y);
    let r = encoder_input(rgb, src_w, src_h, rows, cols);
    if y < rows.len() && x < cols.len() {
        assert(rows[y] < src_h && cols[x] < src_w);
    }
}

// --------------------------------------------------------------------- masks
/// A mask at source resolution is set where the mask is, at the row and column that are sampled.
pub proof fn lemma_scaled_mask(
    flat: Seq<bool>,
    m: MaskRegion,
    rows: Seq<usize>,
    cols: Seq<usize>,
    y: int,
    x: int,
)
    requires
        0 <= y < rows.len(),
        0 <= x < cols.len(),
        rows[y] < m.height,
        cols[x] < m.width,
    ensures
        ({
            let r = scaled_mask(flat, m, rows, cols);
            let at = y * cols.len() + x;
            &&& 0 <= at < r.len()
            &&& r[at] == (if flat[m.start + rows[y] * m.width + cols[x]] {
                255u8
            } else {
                0
            })
        }),
{
    let w = cols.len() as int;
    let at = y * w + x;
    vstd::arithmetic::div_mod::lemma_fundamental_div_mod_converse(at, w, y, x);
    assert(0 <= y * w + x < rows.len() * w) by (nonlinear_arith)
        requires
            0 <= x < w,
            0 <= y < rows.len(),
    ;
    assert(at / w == y && at % w == x);
}

/// The masks of an output fill it: their number times their height times their width is the product
/// of the shape.
pub proof fn lemma_mask_dims(shape: Seq<i64>)
    requires
        forall|k: int| 0 <= k < shape.len() ==> 0 <= #[trigger] shape[k] <= 0x7fff_ffff,
    ensures
        mask_dims(shape) matches Some(d) ==> (shape.len() == 3 && d.0 == shape[0] && d.1 == shape[1]
            && d.2 == shape[2]) || (shape.len() == 4 && d.0 * d.1 * d.2 == shape[0] * shape[1]
            * shape[2] * shape[3]),
        shape.len() == 4 && shape[3] == 1 ==> mask_dims(shape) == Some(
            (shape[0] as usize, shape[1] as usize, shape[2] as usize),
        ),
        shape.len() == 4 && shape[3] != 1 && (shape[0] == 1 || shape[1] == 1) ==> (mask_dims(
            shape,
        ) matches Some(d) && d.1 == shape[2] && d.2 == shape[3]),
        mask_dims(shape) is None <==> !(shape.len() == 3 || (shape.len() == 4 && (shape[0] == 1
            || shape[1] == 1 || shape[3] == 1))),
{
    if shape.len() == 4 {
        let a = shape[0] as int;
        let b = shape[1] as int;
        let c = shape[2] as int;
        let d = shape[3] as int;
        assert(shape[0] <= 0x7fff_ffff && shape[1] <= 0x7fff_ffff && shape[2] <= 0x7fff_ffff
            && shape[3] <= 0x7fff_ffff);
        assert(d == 1 ==> a * b * c == a * b * c * d) by (nonlinear_arith);
        assert(b == 1 ==> a * c * d == a * b * c * d) by (nonlinear_arith);
        assert(a == 1 ==> b * c * d == a * b * c * d) by (nonlinear_arith);
    } else if shape.len() == 3 {
        assert(shape[0] <= 0x7fff_ffff && shape[1] <= 0x7fff_ffff && shape[2] <= 0x7fff_ffff);
    }
}

/// Masks stand one behind the other in an output; one that is there lies in it whole.
pub proof fn lemma_mask_at(dims: (usize, usize, usize), index: usize, len: usize)
    ensures
        mask_at(dims, index, len) matches Ok(m) ==> index < dims.0 && m.start == index * (dims.1
            * dims.2) && m.height == dims.1 && m.width == dims.2 && m.start + dims.1 * dims.2
            <= len,
        mask_at(dims, index, len) is Err ==> index >= dims.0 || index * (dims.1 * dims.2) + dims.1
            * dims.2 > len,
{
    let size = dims.1 * dims.2;
    assert(0 <= size) by (nonlinear_arith)
        requires
            size == dims.1 * dims.2,
    ;
    assert(0 <= index * size) by (nonlinear_arith)
        requires
            0 <= size,
    ;
}

/// Of scores that are equal, the first is the best.
pub proof fn lemma_first_best_score(scores: Seq<Real>, i: int)
    requires
        0 <= i < best_score(scores).0,
    ensures
        scores[i].is_number() ==> scores[i].is_less(best_score(scores).1),
        best_score(scores).1 == scores[best_score(scores).0],
        best_score(scores).0 < scores.len(),
    decreases scores.len(),
{
    if scores.len() > 0 {
        let front = scores.drop_last();
        let b = best_score(front);
        if b.1.is_less(scores.last()) {
            lemma_best_score(front, i);
            assert(front[i] == scores[i]);
        } else {
            lemma_first_best_score(front, i);
            assert(front[i] == scores[i]);
        }
    }
}

} // verus!
