//! Parsing of the binary graph data format: little-endian, a 4-byte node
//! count first, then a sequence of 12-byte records holding a source id, a
//! target id and a weight field. A trailing partial record is ignored; a
//! missing or short header is an error. Reading the bytes from disk is the
//! embedder's concern — this module only gives the bytes a meaning.

use vstd::prelude::*;

verus! {

use vstd::arithmetic::div_mod::lemma_fundamental_div_mod;

/// The binary graph data is unusable.
#[derive(Clone, Copy, PartialEq, Eq, Structural, Debug)]
pub enum GraphDataError {
    /// The data ends before the 4-byte node-count header is complete.
    MissingHeader,
}

/// The little-endian 32-bit value stored at offset `off`.
pub open spec fn le32(data: Seq<u8>, off: int) -> int {
    data[off] + 256 * data[off + 1] + 65536 * data[off + 2] + 16777216 * data[off + 3]
}

/// Reads the little-endian 32-bit value at offset `off`.
fn read_u32_le(data: &Vec<u8>, off: usize) -> (r: u32)
    requires
        off + 4 <= data.len(),
    ensures
        r == le32(data@, off as int),
{
    let b0 = data[off] as u32;
    let b1 = data[off + 1] as u32;
    let b2 = data[off + 2] as u32;
    let b3 = data[off + 3] as u32;
    b0 + 256 * b1 + 65536 * b2 + 16777216 * b3
}

/// Parses binary graph data into the node count and the edge list: the
/// header gives the node count, and each complete 12-byte record after it
/// contributes one `(source, target)` pair, in record order. Bytes after
/// the last complete record are ignored; data shorter than the header is
/// rejected.
pub fn parse_graph_data(data: &Vec<u8>) -> (r: Result<(usize, Vec<(u32, u32)>), GraphDataError>)
    ensures
        match r {
            Ok(parsed) => {
                &&& data@.len() >= 4
                &&& parsed.0 == le32(data@, 0)
                &&& parsed.1@.len() == (data@.len() - 4) / 12
                &&& forall|k: int|
                    0 <= k < parsed.1@.len() ==> #[trigger] parsed.1@[k] == (
                    le32(data@, 4 + 12 * k) as u32,
                    le32(data@, 8 + 12 * k) as u32,
                    )
            },
            Err(e) => e == GraphDataError::MissingHeader && data@.len() < 4,
        },
{
    if data.len() < 4 {
        return Err(GraphDataError::MissingHeader);
    }
    let size = read_u32_le(data, 0);
    let records = (data.len() - 4) / 12;
    proof {
        lemma_fundamental_div_mod(data@.len() - 4, 12);
    }
    let mut edges: Vec<(u32, u32)> = Vec::new();
    let mut k: usize = 0;
    let mut off: usize = 4;
    while k < records
        invariant
            k <= records,
            data.len() >= 4,
            records == (data.len() - 4) as int / 12,
            12 * (records as int) <= data.len() - 4,
            off == 4 + 12 * (k as int),
            edges@.len() == k,
            forall|t: int|
                0 <= t < k ==> #[trigger] edges@[t] == (
                le32(data@, 4 + 12 * t) as u32,
                le32(data@, 8 + 12 * t) as u32,
                ),
        decreases records - k,
    {
        proof {
            assert(12 * (k as int + 1) <= 12 * (records as int)) by (nonlinear_arith)
                requires
                    k as int + 1 <= records as int,
            ;
        }
        let a = read_u32_le(data, off);
        let b = read_u32_le(data, off + 4);
        edges.push((a, b));
        off += 12;
        k += 1;
    }
    Ok((size as usize, edges))
}

} // verus!
