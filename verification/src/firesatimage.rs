//! The decisions taken while reading a Fire Detection Characteristics image: how a file is
//! opened, and which of its cells hold a good quality fire detection.

use crate::text::{extension_start, path_extension};
use vstd::prelude::*;
use vstd::slice::slice_subrange;
use vstd::string::StringSliceAdditionalSpecFns;

verus! {

/// How an image file is opened, by its extension.
#[derive(Debug, Clone, Copy, PartialEq, Eq, Structural)]
pub enum ImageKind {
    /// A zip archive holding one NetCDF file (extension `zip`).
    Zip,
    /// A NetCDF file (extension `nc`).
    NetCdf,
    /// Another extension: the file is not supported.
    Unsupported,
    /// No extension: the name is not a valid input.
    NoExtension,
}

/// The kind of image a file name names.
pub open spec fn kind_of(name: Seq<u8>) -> ImageKind {
    match path_extension(name) {
        None => ImageKind::NoExtension,
        Some(ext) => if ext == seq![122u8, 105u8, 112u8] {
            ImageKind::Zip
        } else if ext == seq![110u8, 99u8] {
            ImageKind::NetCdf
        } else {
            ImageKind::Unsupported
        },
    }
}

/// Decide how to open an image file from its name.
pub fn image_kind(file_name: &str) -> (r: ImageKind)
    ensures
        r == kind_of(file_name.spec_bytes()),
{
    let name = file_name.as_bytes();
    match extension_start(name) {
        None => ImageKind::NoExtension,
        Some(k) => {
            let n = name.len();
            let ext = slice_subrange(name, k, n);
            if ext.len() == 3 && ext[0] == 122u8 && ext[1] == 105u8 && ext[2] == 112u8 {
                assert(ext@ =~= seq![122u8, 105u8, 112u8]);
                ImageKind::Zip
            } else if ext.len() == 2 && ext[0] == 110u8 && ext[1] == 99u8 {
                assert(ext@ =~= seq![110u8, 99u8]);
                assert(ext@ != seq![122u8, 105u8, 112u8]);
                ImageKind::NetCdf
            } else {
                assert(ext@ != seq![110u8, 99u8]) by {
                    if ext@.len() == 2 {
                        assert(ext@[0] != 110u8 || ext@[1] != 99u8);
                    }
                }
                assert(ext@ != seq![122u8, 105u8, 112u8]) by {
                    if ext@.len() == 3 {
                        assert(ext@[0] != 122u8 || ext@[1] != 105u8 || ext@[2] != 112u8);
                    }
                }
                ImageKind::Unsupported
            }
        },
    }
}

/// The cells `(column, row)` in the first `rows` rows of an image `xlen` cells wide, row after
/// row, whose data quality flag is 0, a good quality fire detection.
pub open spec fn good_cells_in_rows(dqfs: Seq<i16>, xlen: int, rows: int) -> Seq<(usize, usize)>
    decreases rows,
{
    if rows <= 0 {
        Seq::empty()
    } else {
        good_cells_in_rows(dqfs, xlen, rows - 1) + good_cells_in_row(dqfs, xlen, rows - 1, xlen)
    }
}

/// The good cells among the first `cols` cells of row `j`.
pub open spec fn good_cells_in_row(dqfs: Seq<i16>, xlen: int, j: int, cols: int) -> Seq<(usize, usize)>
    decreases cols,
{
    if cols <= 0 {
        Seq::empty()
    } else {
        let rest = good_cells_in_row(dqfs, xlen, j, cols - 1);
        let i = cols - 1;
        if dqfs[i + j * xlen] == 0 {
            rest.push((i as usize, j as usize))
        } else {
            rest
        }
    }
}

/// Of the cells listed for row `j` up to column `cols`: each is a cell `(i, j)` with `i` before
/// `cols` and a flag of 0, columns increase along the list, and every such cell is listed.
proof fn lemma_good_cells_in_row(dqfs: Seq<i16>, xlen: int, j: int, cols: int)
    requires
        0 <= j <= usize::MAX,
        0 <= cols <= xlen <= usize::MAX,
    ensures
        ({
            let s = good_cells_in_row(dqfs, xlen, j, cols);
            &&& forall|a: int| #![trigger s[a]] 0 <= a < s.len() ==> {
                &&& s[a].1 == j
                &&& s[a].0 < cols
                &&& dqfs[s[a].0 + j * xlen] == 0
            }
            &&& forall|a: int, b: int| #![trigger s[a], s[b]] 0 <= a < b < s.len() ==> s[a].0 < s[b].0
            &&& forall|i: int| 0 <= i < cols && dqfs[i + j * xlen] == 0 ==> #[trigger] s.contains((i as usize, j as usize))
        }),
    decreases cols,
{
    if cols > 0 {
        lemma_good_cells_in_row(dqfs, xlen, j, cols - 1);
        let rest = good_cells_in_row(dqfs, xlen, j, cols - 1);
        let s = good_cells_in_row(dqfs, xlen, j, cols);
        let i = cols - 1;
        if dqfs[i + j * xlen] == 0 {
            assert(s == rest.push((i as usize, j as usize)));
            assert(s[rest.len() as int] == (i as usize, j as usize));
            assert forall|k: int| 0 <= k < cols && dqfs[k + j * xlen] == 0 implies #[trigger] s.contains((k as usize, j as usize)) by {
                if k < cols - 1 {
                    assert(rest.contains((k as usize, j as usize)));
                    let a = choose|a: int| 0 <= a < rest.len() && rest[a] == (k as usize, j as usize);
                    assert(s[a] == rest[a]);
                }
            }
        } else {
            assert forall|k: int| 0 <= k < cols && dqfs[k + j * xlen] == 0 implies #[trigger] s.contains((k as usize, j as usize)) by {
                assert(k != i);
            }
        }
    }
}

/// Of the cells listed for the first `rows` rows: each is a cell inside those rows with a flag
/// of 0, they come in row-major order, and every such cell is listed.
proof fn lemma_good_cells_in_rows(dqfs: Seq<i16>, xlen: int, rows: int)
    requires
        0 <= rows <= usize::MAX,
        0 <= xlen <= usize::MAX,
    ensures
        ({
            let s = good_cells_in_rows(dqfs, xlen, rows);
            &&& forall|a: int| #![trigger s[a]] 0 <= a < s.len() ==> {
                &&& s[a].0 < xlen
                &&& s[a].1 < rows
                &&& dqfs[s[a].0 + s[a].1 * xlen] == 0
            }
            &&& forall|a: int, b: int|
                #![trigger s[a], s[b]]
                0 <= a < b < s.len() ==> s[a].1 < s[b].1 || (s[a].1 == s[b].1
                    && s[a].0 < s[b].0)
            &&& forall|i: int, j: int|
                0 <= i < xlen && 0 <= j < rows && dqfs[i + j * xlen] == 0 ==> #[trigger] s.contains(
                    (i as usize, j as usize),
                )
        }),
    decreases rows,
{
    if rows > 0 {
        lemma_good_cells_in_rows(dqfs, xlen, rows - 1);
        lemma_good_cells_in_row(dqfs, xlen, rows - 1, xlen);
        let before = good_cells_in_rows(dqfs, xlen, rows - 1);
        let row = good_cells_in_row(dqfs, xlen, rows - 1, xlen);
        let s = good_cells_in_rows(dqfs, xlen, rows);
        assert(s == before + row);
        assert forall|a: int| #![trigger s[a]] 0 <= a < s.len() implies {
            &&& s[a].0 < xlen
            &&& s[a].1 < rows
            &&& dqfs[s[a].0 + s[a].1 * xlen] == 0
        } by {
            if a >= before.len() {
                assert(s[a] == row[a - before.len()]);
            } else {
                assert(s[a] == before[a]);
            }
        }
        assert forall|a: int, b: int|
            #![trigger s[a], s[b]]
            0 <= a < b < s.len() implies s[a].1 < s[b].1 || (s[a].1 == s[b].1
                && s[a].0 < s[b].0) by {
            if b < before.len() {
                assert(s[a] == before[a] && s[b] == before[b]);
            } else if a < before.len() {
                assert(s[a] == before[a] && s[b] == row[b - before.len()]);
            } else {
                assert(s[a] == row[a - before.len()] && s[b] == row[b - before.len()]);
            }
        }
        assert forall|i: int, j: int|
            0 <= i < xlen && 0 <= j < rows && dqfs[i + j * xlen] == 0 implies #[trigger] s.contains(
                (i as usize, j as usize),
            ) by {
            if j < rows - 1 {
                assert(before.contains((i as usize, j as usize)));
                let a = choose|a: int| 0 <= a < before.len() && before[a] == (i as usize, j as usize);
                assert(s[a] == before[a]);
            } else {
                assert(row.contains((i as usize, j as usize)));
                let a = choose|a: int| 0 <= a < row.len() && row[a] == (i as usize, j as usize);
                assert(s[before.len() + a] == row[a]);
            }
        }
    }
}

/// The cells that [`good_quality_cells`] lists are exactly the cells of the image whose data
/// quality flag is 0, each listed once, row after row and column after column: every cell
/// listed lies in the image and has flag 0, every cell of the image with flag 0 is listed, and
/// a cell comes before another exactly when its row is lower, or its row is the same and its
/// column lower.
pub proof fn lemma_good_quality_cells_are_flag_zero(dqfs: Seq<i16>, xlen: usize, ylen: usize, cells: Seq<(usize, usize)>)
    requires
        cells == good_cells_in_rows(dqfs, xlen as int, ylen as int),
    ensures
        forall|a: int|
            0 <= a < cells.len() ==> #[trigger] cells[a].0 < xlen && cells[a].1 < ylen
                && dqfs[cells[a].0 + cells[a].1 * xlen] == 0,
        forall|i: usize, j: usize|
            i < xlen && j < ylen && dqfs[i + j * xlen] == 0 ==> #[trigger] cells.contains((i, j)),
        forall|a: int, b: int|
            0 <= a < b < cells.len() ==> #[trigger] cells[a].1 < #[trigger] cells[b].1 || (cells[a].1
                == cells[b].1 && cells[a].0 < cells[b].0),
{
    lemma_good_cells_in_rows(dqfs, xlen as int, ylen as int);
    assert forall|i: usize, j: usize|
        i < xlen && j < ylen && dqfs[i + j * xlen] == 0 implies #[trigger] cells.contains((i, j)) by {
        assert(cells.contains((i as int as usize, j as int as usize)));
    }
}

/// The cells of an image whose data quality flag says the fire detection is of good quality,
/// row after row.
pub fn good_quality_cells(dqfs: &[i16], xlen: usize, ylen: usize) -> (r: Vec<(usize, usize)>)
    requires
        xlen * ylen <= dqfs@.len(),
    ensures
        r@ == good_cells_in_rows(dqfs@, xlen as int, ylen as int),
{
    let len = dqfs.len();
    let mut out: Vec<(usize, usize)> = Vec::new();
    let mut j: usize = 0;
    while j < ylen
        invariant
            xlen * ylen <= dqfs@.len(),
            len == dqfs@.len(),
            j <= ylen,
            out@ == good_cells_in_rows(dqfs@, xlen as int, j as int),
        decreases ylen - j,
    {
        let ghost before = out@;
        let mut i: usize = 0;
        while i < xlen
            invariant
                xlen * ylen <= dqfs@.len(),
                len == dqfs@.len(),
                j < ylen,
                i <= xlen,
                out@ == before + good_cells_in_row(dqfs@, xlen as int, j as int, i as int),
            decreases xlen - i,
        {
            assert(j * xlen <= i + j * xlen < xlen * ylen) by (nonlinear_arith)
                requires
                    i < xlen,
                    j < ylen,
            ;
            let index = i + j * xlen;
            if dqfs[index] == 0 {
                out.push((i, j));
            }
            proof {
                assert(out@ =~= before + good_cells_in_row(dqfs@, xlen as int, j as int, i + 1));
            }
            i += 1;
        }
        j += 1;
    }
    out
}

} // verus!
