//! The cross-tile dedup engine: tile by tile, parse each fetched
//! record line, keep only the lines whose barcode value wins the
//! insert into the one shared dedup set, and aggregate every winner
//! into one global whitelist and one global mapping output. A barcode
//! present in many tiles survives in exactly one of them.

use vstd::prelude::*;

use dashmap::DashSet;

use crate::ascii::TAB;
use crate::error::AppError;
use crate::position::{spec_splitn, splitn_bytes};
use crate::shared_set::{shared_set_contents, shared_set_insert, shared_set_new};
use vstd::string::StringExecFns;

verus! {

/// The barcode value of one tab-separated store line: everything after
/// the third tab. A line with fewer fields has none.
pub open spec fn spec_line_barcode(line: Seq<u8>) -> Option<Seq<u8>> {
    let parts = spec_splitn(line, TAB, 4);
    if parts.len() == 4 {
        Some(parts[3])
    } else {
        None
    }
}

/// The barcode values of a whole tile's lines, ignoring malformed
/// lines.
pub open spec fn parsed_barcodes(lines: Seq<Seq<u8>>) -> Set<Seq<u8>>
    decreases lines.len(),
{
    if lines.len() == 0 {
        Set::empty()
    } else {
        match spec_line_barcode(lines[0]) {
            Some(b) => parsed_barcodes(lines.drop_first()).insert(b),
            None => parsed_barcodes(lines.drop_first()),
        }
    }
}

/// The barcode values over all tiles.
pub open spec fn parsed_all(tiles: Seq<Seq<Seq<u8>>>) -> Set<Seq<u8>>
    decreases tiles.len(),
{
    if tiles.len() == 0 {
        Set::empty()
    } else {
        parsed_barcodes(tiles[0]).union(parsed_all(tiles.drop_first()))
    }
}

/// What one tile's pass leaves behind: its winning (line, barcode)
/// pairs in line order, the dedup set afterwards, and whether a
/// malformed line stopped it.
pub struct TileDedupV {
    pub winners: Seq<(Seq<u8>, Seq<u8>)>,
    pub seen: Set<Seq<u8>>,
    pub error: bool,
}

pub open spec fn tile_dedup_spec(lines: Seq<Seq<u8>>, seen: Set<Seq<u8>>) -> TileDedupV
    decreases lines.len(),
{
    if lines.len() == 0 {
        TileDedupV { winners: Seq::empty(), seen, error: false }
    } else {
        match spec_line_barcode(lines[0]) {
            None => TileDedupV { winners: Seq::empty(), seen, error: true },
            Some(b) => {
                if seen.contains(b) {
                    tile_dedup_spec(lines.drop_first(), seen)
                } else {
                    let rest = tile_dedup_spec(lines.drop_first(), seen.insert(b));
                    TileDedupV {
                        winners: seq![(lines[0], b)] + rest.winners,
                        seen: rest.seen,
                        error: rest.error,
                    }
                }
            },
        }
    }
}

/// The whole engine run: per-tile winner lists in tile order, the two
/// global outputs, the final dedup set, and the error flag.
pub struct DedupRunV {
    pub tiles: Seq<Seq<(Seq<u8>, Seq<u8>)>>,
    pub whitelist: Seq<Seq<u8>>,
    pub mapping: Seq<Seq<u8>>,
    pub seen: Set<Seq<u8>>,
    pub error: bool,
}

pub open spec fn dedup_run_spec(tiles: Seq<Seq<Seq<u8>>>, seen: Set<Seq<u8>>) -> DedupRunV
    decreases tiles.len(),
{
    if tiles.len() == 0 {
        DedupRunV {
            tiles: Seq::empty(),
            whitelist: Seq::empty(),
            mapping: Seq::empty(),
            seen,
            error: false,
        }
    } else {
        let t = tile_dedup_spec(tiles[0], seen);
        if t.error {
            DedupRunV {
                tiles: seq![t.winners],
                whitelist: Seq::empty(),
                mapping: Seq::empty(),
                seen: t.seen,
                error: true,
            }
        } else {
            let rest = dedup_run_spec(tiles.drop_first(), t.seen);
            DedupRunV {
                tiles: seq![t.winners] + rest.tiles,
                whitelist: t.winners.map_values(|w: (Seq<u8>, Seq<u8>)| w.1) + rest.whitelist,
                mapping: t.winners.map_values(|w: (Seq<u8>, Seq<u8>)| w.0) + rest.mapping,
                seen: rest.seen,
                error: rest.error,
            }
        }
    }
}

/// What one tile's pass guarantees: winners carry their own barcode,
/// each winner was new, every new barcode of the tile wins, and the
/// set afterwards holds exactly the old values and the tile's values.
pub proof fn lemma_tile_dedup(lines: Seq<Seq<u8>>, seen: Set<Seq<u8>>)
    ensures
        ({
            let t = tile_dedup_spec(lines, seen);
            !t.error ==> {
                &&& t.seen == seen.union(parsed_barcodes(lines))
                &&& forall|k: int|
                    0 <= k < t.winners.len() ==> spec_line_barcode((#[trigger] t.winners[k]).0)
                        == Some(t.winners[k].1)
                &&& forall|k: int|
                    0 <= k < t.winners.len() ==> !seen.contains((#[trigger] t.winners[k]).1)
                        && parsed_barcodes(lines).contains(t.winners[k].1)
                &&& forall|k: int, l: int|
                    0 <= k < l < t.winners.len() ==> (#[trigger] t.winners[k]).1 != (
                    #[trigger] t.winners[l]).1
                &&& forall|b: Seq<u8>|
                    parsed_barcodes(lines).contains(b) && !seen.contains(b)
                        ==> t.winners.map_values(|w: (Seq<u8>, Seq<u8>)| w.1).contains(b)
            }
        }),
    decreases lines.len(),
{
    let t = tile_dedup_spec(lines, seen);
    if lines.len() == 0 {
        if !t.error {
            assert(t.seen =~= seen.union(parsed_barcodes(lines)));
        }
    } else {
        match spec_line_barcode(lines[0]) {
            None => {
            },
            Some(b) => {
                let rest_lines = lines.drop_first();
                if seen.contains(b) {
                    lemma_tile_dedup(rest_lines, seen);
                    if !t.error {
                        assert(parsed_barcodes(lines) == parsed_barcodes(rest_lines).insert(b));
                        assert(t.seen =~= seen.union(parsed_barcodes(lines)));
                        assert forall|c: Seq<u8>|
                            parsed_barcodes(lines).contains(c) && !seen.contains(c) implies t
                            .winners.map_values(|w: (Seq<u8>, Seq<u8>)| w.1).contains(c) by {
                            assert(c != b);
                            assert(parsed_barcodes(rest_lines).contains(c));
                        }
                    }
                } else {
                    let seen2 = seen.insert(b);
                    lemma_tile_dedup(rest_lines, seen2);
                    let rest = tile_dedup_spec(rest_lines, seen2);
                    if !t.error {
                        assert(t.winners == seq![(lines[0], b)] + rest.winners);
                        assert(t.winners[0] == (lines[0], b));
                        assert forall|k: int| 0 <= k < t.winners.len() implies spec_line_barcode(
                            (#[trigger] t.winners[k]).0,
                        ) == Some(t.winners[k].1) by {
                            if k > 0 {
                                assert(t.winners[k] == rest.winners[k - 1]);
                            }
                        }
                        assert(t.seen =~= seen.union(parsed_barcodes(lines)));
                        assert forall|k: int| 0 <= k < t.winners.len() implies !seen.contains(
                            (#[trigger] t.winners[k]).1,
                        ) && parsed_barcodes(lines).contains(t.winners[k].1) by {
                            if k > 0 {
                                assert(t.winners[k] == rest.winners[k - 1]);
                                assert(!seen2.contains(rest.winners[k - 1].1));
                                assert(parsed_barcodes(rest_lines).contains(
                                    rest.winners[k - 1].1,
                                ));
                            }
                        }
                        assert forall|k: int, l: int| 0 <= k < l < t.winners.len() implies (
                        #[trigger] t.winners[k]).1 != (#[trigger] t.winners[l]).1 by {
                            if k > 0 {
                                assert(t.winners[k] == rest.winners[k - 1]);
                                assert(t.winners[l] == rest.winners[l - 1]);
                            } else {
                                assert(t.winners[l] == rest.winners[l - 1]);
                                assert(!seen2.contains(rest.winners[l - 1].1));
                            }
                        }
                        assert forall|c: Seq<u8>|
                            parsed_barcodes(lines).contains(c) && !seen.contains(c) implies t
                            .winners.map_values(|w: (Seq<u8>, Seq<u8>)| w.1).contains(c) by {
                            let mapped = t.winners.map_values(|w: (Seq<u8>, Seq<u8>)| w.1);
                            if c == b {
                                assert(mapped[0] == b);
                            } else {
                                assert(parsed_barcodes(rest_lines).contains(c));
                                assert(!seen2.contains(c));
                                let rm = rest.winners.map_values(|w: (Seq<u8>, Seq<u8>)| w.1);
                                assert(rm.contains(c));
                                let k = choose|k: int| 0 <= k < rm.len() && rm[k] == c;
                                assert(mapped[k + 1] == rm[k]);
                            }
                        }
                    }
                }
            },
        }
    }
}

/// What the whole run guarantees when no line is malformed: as many
/// winner lists as tiles; every winner barcode over the whole run is
/// distinct from every other, within and across tiles; the whitelist
/// holds exactly the barcode values present in the input and each of
/// them once; and the mapping lines carry the whitelist's values, in
/// step.
pub proof fn lemma_dedup_run(tiles: Seq<Seq<Seq<u8>>>, seen: Set<Seq<u8>>)
    ensures
        ({
            let r = dedup_run_spec(tiles, seen);
            !r.error ==> {
                &&& r.tiles.len() == tiles.len()
                &&& r.seen == seen.union(parsed_all(tiles))
                &&& forall|i: int, k: int|
                    0 <= i < r.tiles.len() && 0 <= k < r.tiles[i].len() ==> !seen.contains(
                        (#[trigger] r.tiles[i][k]).1,
                    ) && parsed_all(tiles).contains(r.tiles[i][k].1)
                &&& forall|i: int, k: int, j: int, l: int|
                    0 <= i < r.tiles.len() && 0 <= k < r.tiles[i].len() && 0 <= j < r.tiles.len()
                        && 0 <= l < r.tiles[j].len() && (i != j || k != l) ==> (
                    #[trigger] r.tiles[i][k]).1 != (#[trigger] r.tiles[j][l]).1
                &&& forall|b: Seq<u8>|
                    #[trigger] r.whitelist.contains(b) <==> (parsed_all(tiles).contains(b)
                        && !seen.contains(b))
                &&& r.whitelist.no_duplicates()
                &&& forall|i: int, k: int|
                    0 <= i < r.tiles.len() && 0 <= k < r.tiles[i].len() ==> r.whitelist.contains(
                        (#[trigger] r.tiles[i][k]).1,
                    )
                &&& r.mapping.len() == r.whitelist.len()
                &&& forall|k: int|
                    0 <= k < r.whitelist.len() ==> spec_line_barcode(#[trigger] r.mapping[k])
                        == Some(r.whitelist[k])
            }
        }),
    decreases tiles.len(),
{
    let r = dedup_run_spec(tiles, seen);
    if tiles.len() == 0 {
        if !r.error {
            assert(r.seen =~= seen.union(parsed_all(tiles)));
            reveal(Seq::no_duplicates);
        }
    } else {
        let t = tile_dedup_spec(tiles[0], seen);
        lemma_tile_dedup(tiles[0], seen);
        if !t.error {
            let rest_tiles = tiles.drop_first();
            lemma_dedup_run(rest_tiles, t.seen);
            let rest = dedup_run_spec(rest_tiles, t.seen);
            if !r.error {
                let tb = t.winners.map_values(|w: (Seq<u8>, Seq<u8>)| w.1);
                let tm = t.winners.map_values(|w: (Seq<u8>, Seq<u8>)| w.0);
                assert(r.tiles == seq![t.winners] + rest.tiles);
                assert(r.whitelist == tb + rest.whitelist);
                assert(r.mapping == tm + rest.mapping);
                assert(t.seen == seen.union(parsed_barcodes(tiles[0])));
                assert(rest.seen == t.seen.union(parsed_all(rest_tiles)));
                assert(r.seen =~= seen.union(parsed_all(tiles)));

                // Membership of the whitelist.
                assert forall|b: Seq<u8>| #[trigger]
                    r.whitelist.contains(b) implies (parsed_all(tiles).contains(b)
                    && !seen.contains(b)) by {
                    let k = choose|k: int| 0 <= k < r.whitelist.len() && r.whitelist[k] == b;
                    if k < tb.len() {
                        assert(tb[k] == t.winners[k].1);
                    } else {
                        assert(r.whitelist[k] == rest.whitelist[k - tb.len()]);
                        assert(rest.whitelist.contains(b));
                        assert(!t.seen.contains(b));
                    }
                }
                assert forall|b: Seq<u8>|
                    parsed_all(tiles).contains(b) && !seen.contains(b) implies #[trigger] r
                    .whitelist.contains(b) by {
                    if parsed_barcodes(tiles[0]).contains(b) {
                        assert(tb.contains(b));
                        let k = choose|k: int| 0 <= k < tb.len() && tb[k] == b;
                        assert(r.whitelist[k] == b);
                    } else {
                        assert(parsed_all(rest_tiles).contains(b));
                        assert(!t.seen.contains(b));
                        assert(rest.whitelist.contains(b));
                        let k = choose|k: int|
                            0 <= k < rest.whitelist.len() && rest.whitelist[k] == b;
                        assert(r.whitelist[tb.len() + k] == b);
                    }
                }

                // Pairwise distinctness of all winner barcodes.
                assert forall|i: int, k: int, j: int, l: int|
                    0 <= i < r.tiles.len() && 0 <= k < r.tiles[i].len() && 0 <= j < r.tiles.len()
                        && 0 <= l < r.tiles[j].len() && (i != j || k != l) implies (
                    #[trigger] r.tiles[i][k]).1 != (#[trigger] r.tiles[j][l]).1 by {
                    if i == 0 && j == 0 {
                        assert(r.tiles[0] == t.winners);
                    } else if i == 0 && j > 0 {
                        assert(r.tiles[0] == t.winners);
                        assert(r.tiles[j] == rest.tiles[j - 1]);
                        assert(t.seen.contains(t.winners[k].1));
                        assert(!t.seen.contains(rest.tiles[j - 1][l].1));
                    } else if i > 0 && j == 0 {
                        assert(r.tiles[0] == t.winners);
                        assert(r.tiles[i] == rest.tiles[i - 1]);
                        assert(t.seen.contains(t.winners[l].1));
                        assert(!t.seen.contains(rest.tiles[i - 1][k].1));
                    } else {
                        assert(r.tiles[i] == rest.tiles[i - 1]);
                        assert(r.tiles[j] == rest.tiles[j - 1]);
                    }
                }

                // Winners never in the starting set, always in the input.
                assert forall|i: int, k: int|
                    0 <= i < r.tiles.len() && 0 <= k < r.tiles[i].len() implies !seen.contains(
                        (#[trigger] r.tiles[i][k]).1,
                    ) && parsed_all(tiles).contains(r.tiles[i][k].1) by {
                    if i == 0 {
                        assert(r.tiles[0] == t.winners);
                    } else {
                        assert(r.tiles[i] == rest.tiles[i - 1]);
                        assert(!t.seen.contains(rest.tiles[i - 1][k].1));
                        assert(parsed_all(rest_tiles).contains(rest.tiles[i - 1][k].1));
                    }
                }

                // The whitelist repeats nothing.
                assert(r.whitelist.no_duplicates()) by {
                    reveal(Seq::no_duplicates);
                    assert forall|k: int, l: int|
                        0 <= k < l < r.whitelist.len() implies r.whitelist[k]
                        != r.whitelist[l] by {
                        if l < tb.len() {
                            assert(tb[k] == t.winners[k].1 && tb[l] == t.winners[l].1);
                        } else if k < tb.len() {
                            assert(r.whitelist[k] == t.winners[k].1);
                            assert(r.whitelist[l] == rest.whitelist[l - tb.len()]);
                            assert(t.seen.contains(t.winners[k].1));
                            assert(rest.whitelist.contains(rest.whitelist[l - tb.len()]));
                            assert(!t.seen.contains(rest.whitelist[l - tb.len()]));
                        } else {
                            assert(r.whitelist[k] == rest.whitelist[k - tb.len()]);
                            assert(r.whitelist[l] == rest.whitelist[l - tb.len()]);
                        }
                    }
                }

                // Every tile winner reaches the whitelist.
                assert forall|i: int, k: int|
                    0 <= i < r.tiles.len() && 0 <= k < r.tiles[i].len() implies r
                    .whitelist.contains((#[trigger] r.tiles[i][k]).1) by {
                    if i == 0 {
                        assert(r.tiles[0] == t.winners);
                        assert(r.whitelist[k] == tb[k]);
                    } else {
                        assert(r.tiles[i] == rest.tiles[i - 1]);
                        assert(rest.whitelist.contains(rest.tiles[i - 1][k].1));
                        let m = choose|m: int|
                            0 <= m < rest.whitelist.len() && rest.whitelist[m] == rest.tiles[i
                            - 1][k].1;
                        assert(r.whitelist[tb.len() + m] == rest.whitelist[m]);
                    }
                }

                // The mapping lines carry the whitelist's values.
                assert forall|k: int| 0 <= k < r.whitelist.len() implies spec_line_barcode(
                    #[trigger] r.mapping[k],
                ) == Some(r.whitelist[k]) by {
                    if k < tb.len() {
                        assert(r.mapping[k] == tm[k] && r.whitelist[k] == tb[k]);
                        assert(tm[k] == t.winners[k].0 && tb[k] == t.winners[k].1);
                    } else {
                        assert(r.mapping[k] == rest.mapping[k - tb.len()]);
                        assert(r.whitelist[k] == rest.whitelist[k - tb.len()]);
                    }
                }
            }
        }
    }
}

/// Dedup engine law: in a run over any tiles that ends without error,
/// a barcode value present in the input, however many tiles hold it,
/// stands exactly once in the global whitelist, its line exactly once
/// in the global mapping, and wins in exactly one tile's local output.
pub proof fn lemma_dedup_exactly_once(tiles: Seq<Seq<Seq<u8>>>, b: Seq<u8>)
    requires
        !dedup_run_spec(tiles, Set::empty()).error,
        parsed_all(tiles).contains(b),
    ensures
        ({
            let r = dedup_run_spec(tiles, Set::empty());
            &&& r.whitelist.contains(b)
            &&& r.whitelist.no_duplicates()
            &&& exists|i: int, k: int|
                #![trigger r.tiles[i][k]]
                0 <= i < r.tiles.len() && 0 <= k < r.tiles[i].len() && r.tiles[i][k].1 == b
            &&& forall|i: int, k: int, j: int, l: int|
                (0 <= i < r.tiles.len() && 0 <= k < r.tiles[i].len() && 0 <= j < r.tiles.len()
                    && 0 <= l < r.tiles[j].len() && (#[trigger] r.tiles[i][k]).1 == b && (
                #[trigger] r.tiles[j][l]).1 == b) ==> i == j && k == l
        }),
{
    lemma_dedup_run(tiles, Set::empty());
    let r = dedup_run_spec(tiles, Set::empty());
    assert(r.whitelist.contains(b));
    let k = choose|k: int| 0 <= k < r.whitelist.len() && r.whitelist[k] == b;
    lemma_whitelist_winner(tiles, Set::empty(), b);
}

/// Every whitelist value is some tile's winner.
proof fn lemma_whitelist_winner(tiles: Seq<Seq<Seq<u8>>>, seen: Set<Seq<u8>>, b: Seq<u8>)
    requires
        !dedup_run_spec(tiles, seen).error,
        dedup_run_spec(tiles, seen).whitelist.contains(b),
    ensures
        ({
            let r = dedup_run_spec(tiles, seen);
            exists|i: int, k: int|
                #![trigger r.tiles[i][k]]
                0 <= i < r.tiles.len() && 0 <= k < r.tiles[i].len() && r.tiles[i][k].1 == b
        }),
    decreases tiles.len(),
{
    let r = dedup_run_spec(tiles, seen);
    let t = tile_dedup_spec(tiles[0], seen);
    let tb = t.winners.map_values(|w: (Seq<u8>, Seq<u8>)| w.1);
    let rest_tiles = tiles.drop_first();
    let rest = dedup_run_spec(rest_tiles, t.seen);
    let k = choose|k: int| 0 <= k < r.whitelist.len() && r.whitelist[k] == b;
    if k < tb.len() {
        assert(r.tiles[0] == t.winners);
        assert(r.tiles[0][k].1 == b);
    } else {
        assert(r.whitelist[k] == rest.whitelist[k - tb.len()]);
        assert(rest.whitelist.contains(b));
        lemma_whitelist_winner(rest_tiles, t.seen, b);
        let (i, l) = choose|i: int, l: int|
            #![trigger rest.tiles[i][l]]
            0 <= i < rest.tiles.len() && 0 <= l < rest.tiles[i].len() && rest.tiles[i][l].1 == b;
        assert(r.tiles[i + 1] == rest.tiles[i]);
        assert(r.tiles[i + 1][l].1 == b);
    }
}

/// The lines one tile's pass writes locally and forwards globally.
#[derive(Debug)]
pub struct TileDedupResult {
    /// The tile's own output: the header line, then every winning line
    /// in original order.
    pub local_lines: Vec<Vec<u8>>,
    /// The winning lines, forwarded to the global mapping output.
    pub winner_records: Vec<Vec<u8>>,
    /// The winning barcode values, forwarded to the global whitelist.
    pub winner_barcodes: Vec<Vec<u8>>,
}

/// The header every tile's local output starts with.
pub open spec fn tile_header_bytes() -> Seq<u8> {
    vstd::utf8::encode_utf8("tile_id\tx_po\ty_pos\tbarcode"@)
}

pub fn tile_header() -> (r: Vec<u8>)
    ensures
        r@ == tile_header_bytes(),
{
    let h = "tile_id\tx_po\ty_pos\tbarcode";
    vstd::slice::slice_to_vec(h.as_bytes())
}

/// The running engine: one shared dedup set for the whole run.
pub struct DedupEngine {
    pub set: DashSet<Vec<u8>>,
}

/// The barcode value of one store line, everything after the third
/// tab; a line with fewer than four fields has none.
pub fn parse_tile_line(line: &[u8]) -> (r: Option<Vec<u8>>)
    ensures
        r is Some <==> spec_line_barcode(line@) is Some,
        r matches Some(v) ==> spec_line_barcode(line@) == Some(v@),
{
    let parts = splitn_bytes(line, TAB, 4);
    if parts.len() == 4 {
        let b = vstd::slice::slice_to_vec(parts[3].as_slice());
        Some(b)
    } else {
        None
    }
}

impl DedupEngine {
    pub open spec fn seen(&self) -> Set<Seq<u8>> {
        shared_set_contents(self.set)
    }

    pub fn new() -> (r: Self)
        ensures
            r.seen() == Set::<Seq<u8>>::empty(),
    {
        DedupEngine { set: shared_set_new() }
    }

    /// One tile's pass: parse every line, keep the winners, and report
    /// a malformed line as the fatal store-format error.
    pub fn process_tile(&mut self, lines: &Vec<Vec<u8>>) -> (r: Result<TileDedupResult, AppError>)
        ensures
            ({
                let t = tile_dedup_spec(
                    lines@.map_values(|l: Vec<u8>| l@),
                    old(self).seen(),
                );
                if t.error {
                    r matches Err(e) && e matches AppError::IoError(m) && m@
                        == "Invalid tile's barcode file format"@
                } else {
                    &&& final(self).seen() == t.seen
                    &&& r matches Ok(out) && out.winner_records@.map_values(|v: Vec<u8>| v@)
                        == t.winners.map_values(|w: (Seq<u8>, Seq<u8>)| w.0)
                        && out.winner_barcodes@.map_values(|v: Vec<u8>| v@)
                        == t.winners.map_values(|w: (Seq<u8>, Seq<u8>)| w.1)
                        && out.local_lines@.map_values(|v: Vec<u8>| v@)
                        == seq![tile_header_bytes()] + t.winners.map_values(
                        |w: (Seq<u8>, Seq<u8>)| w.0,
                    )
                }
            }),
    {
        let ghost ls = lines@.map_values(|l: Vec<u8>| l@);
        let ghost t = tile_dedup_spec(ls, old(self).seen());
        let mut local_lines: Vec<Vec<u8>> = Vec::new();
        let mut winner_records: Vec<Vec<u8>> = Vec::new();
        let mut winner_barcodes: Vec<Vec<u8>> = Vec::new();
        local_lines.push(tile_header());
        let mut i: usize = 0;
        proof {
            assert(ls.subrange(0, ls.len() as int) =~= ls);
            assert(local_lines@.map_values(|v: Vec<u8>| v@) =~= seq![tile_header_bytes()]);
        }
        while i < lines.len()
            invariant
                0 <= i <= lines@.len(),
                ls == lines@.map_values(|l: Vec<u8>| l@),
                t == tile_dedup_spec(ls, old(self).seen()),
                tile_partial(
                    t,
                    tile_dedup_spec(ls.subrange(i as int, ls.len() as int), self.seen()),
                    winner_records@.map_values(|v: Vec<u8>| v@),
                    winner_barcodes@.map_values(|v: Vec<u8>| v@),
                ),
                local_lines@.map_values(|v: Vec<u8>| v@) == seq![tile_header_bytes()]
                    + winner_records@.map_values(|v: Vec<u8>| v@),
            decreases lines@.len() - i,
        {
            let ghost rest = ls.subrange(i as int, ls.len() as int);
            let ghost part = tile_dedup_spec(rest, self.seen());
            let ghost recs0 = winner_records@.map_values(|v: Vec<u8>| v@);
            let ghost bcs0 = winner_barcodes@.map_values(|v: Vec<u8>| v@);
            let ghost loc0 = local_lines@.map_values(|v: Vec<u8>| v@);
            proof {
                assert(rest[0] == ls[i as int]);
                assert(ls[i as int] == lines@[i as int]@);
                assert(rest.drop_first() =~= ls.subrange(i + 1, ls.len() as int));
            }
            let line = &lines[i];
            match parse_tile_line(line.as_slice()) {
                None => {
                    return Err(
                        AppError::IoError(
                            String::from_str("Invalid tile's barcode file format"),
                        ),
                    );
                },
                Some(barcode) => {
                    let ghost seen0 = self.seen();
                    let ghost b = barcode@;
                    let barcode_copy = vstd::slice::slice_to_vec(barcode.as_slice());
                    let inserted = shared_set_insert(&mut self.set, barcode);
                    if inserted {
                        local_lines.push(vstd::slice::slice_to_vec(line.as_slice()));
                        winner_records.push(vstd::slice::slice_to_vec(line.as_slice()));
                        winner_barcodes.push(barcode_copy);
                        proof {
                            assert(winner_records@.map_values(|v: Vec<u8>| v@) =~= recs0.push(
                                rest[0],
                            ));
                            assert(winner_barcodes@.map_values(|v: Vec<u8>| v@) =~= bcs0.push(b));
                            assert(local_lines@.map_values(|v: Vec<u8>| v@) =~= loc0.push(
                                rest[0],
                            ));
                            assert(loc0.push(rest[0]) =~= seq![tile_header_bytes()] + recs0.push(
                                rest[0],
                            ));
                            let part2 = tile_dedup_spec(rest.drop_first(), self.seen());
                            assert(part.winners == seq![(rest[0], b)] + part2.winners);
                            lemma_tile_partial_step(
                                t,
                                part,
                                part2,
                                recs0,
                                bcs0,
                                rest[0],
                                b,
                            );
                        }
                    } else {
                        proof {
                            assert(self.seen() =~= seen0);
                        }
                    }
                },
            }
            i += 1;
        }
        proof {
            assert(ls.subrange(i as int, ls.len() as int) =~= Seq::<Seq<u8>>::empty());
            let part = tile_dedup_spec(Seq::<Seq<u8>>::empty(), self.seen());
            assert(part.winners =~= Seq::<(Seq<u8>, Seq<u8>)>::empty());
            assert(!t.error);
            assert(winner_records@.map_values(|v: Vec<u8>| v@) =~= t.winners.map_values(
                |w: (Seq<u8>, Seq<u8>)| w.0,
            ));
            assert(winner_barcodes@.map_values(|v: Vec<u8>| v@) =~= t.winners.map_values(
                |w: (Seq<u8>, Seq<u8>)| w.1,
            ));
        }
        Ok(TileDedupResult { local_lines, winner_records, winner_barcodes })
    }
}

/// The loop's bookkeeping: what the whole tile pass yields equals the
/// winners taken so far followed by what the remaining lines yield.
pub open spec fn tile_partial(
    t: TileDedupV,
    part: TileDedupV,
    recs: Seq<Seq<u8>>,
    bcs: Seq<Seq<u8>>,
) -> bool {
    &&& t.error == part.error
    &&& t.seen == part.seen
    &&& t.winners.map_values(|w: (Seq<u8>, Seq<u8>)| w.0) == recs + part.winners.map_values(
        |w: (Seq<u8>, Seq<u8>)| w.0,
    )
    &&& t.winners.map_values(|w: (Seq<u8>, Seq<u8>)| w.1) == bcs + part.winners.map_values(
        |w: (Seq<u8>, Seq<u8>)| w.1,
    )
}

proof fn lemma_tile_partial_step(
    t: TileDedupV,
    part: TileDedupV,
    part2: TileDedupV,
    recs: Seq<Seq<u8>>,
    bcs: Seq<Seq<u8>>,
    line: Seq<u8>,
    b: Seq<u8>,
)
    requires
        tile_partial(t, part, recs, bcs),
        part.winners == seq![(line, b)] + part2.winners,
        part.error == part2.error,
        part.seen == part2.seen,
    ensures
        tile_partial(t, part2, recs.push(line), bcs.push(b)),
{
    let f0 = |w: (Seq<u8>, Seq<u8>)| w.0;
    let f1 = |w: (Seq<u8>, Seq<u8>)| w.1;
    assert(part.winners.map_values(f0) =~= seq![line] + part2.winners.map_values(f0));
    assert(part.winners.map_values(f1) =~= seq![b] + part2.winners.map_values(f1));
    assert(recs + part.winners.map_values(f0) =~= recs.push(line) + part2.winners.map_values(f0));
    assert(bcs + part.winners.map_values(f1) =~= bcs.push(b) + part2.winners.map_values(f1));
}

/// The two aggregated global outputs beside the per-tile ones.
#[derive(Debug)]
pub struct DedupOutput {
    pub tile_outputs: Vec<TileDedupResult>,
    /// One barcode value per line, each globally unique value once.
    pub whitelist: Vec<Vec<u8>>,
    /// The full record line of each globally unique barcode.
    pub mapping: Vec<Vec<u8>>,
}

/// Runs the engine over every tile's fetched lines, in tile order, and
/// aggregates the winners into the two global outputs. The first
/// malformed line anywhere fails the whole run.
pub fn dedup(tiles: &Vec<Vec<Vec<u8>>>) -> (r: Result<DedupOutput, AppError>)
    ensures
        ({
            let run = dedup_run_spec(
                tiles@.map_values(|t: Vec<Vec<u8>>| t.deep_view()),
                Set::empty(),
            );
            if run.error {
                r matches Err(e) && e matches AppError::IoError(m) && m@
                    == "Invalid tile's barcode file format"@
            } else {
                r matches Ok(out) && out.tile_outputs@.len() == tiles@.len()
                    && out.whitelist@.map_values(|v: Vec<u8>| v@) == run.whitelist
                    && out.mapping@.map_values(|v: Vec<u8>| v@) == run.mapping && (forall|i: int|
                    0 <= i < tiles@.len()
                        ==> (#[trigger] out.tile_outputs@[i]).winner_records@.map_values(
                        |v: Vec<u8>| v@,
                    ) == run.tiles[i].map_values(|w: (Seq<u8>, Seq<u8>)| w.0)
                        && out.tile_outputs@[i].winner_barcodes@.map_values(|v: Vec<u8>| v@)
                        == run.tiles[i].map_values(|w: (Seq<u8>, Seq<u8>)| w.1)
                        && out.tile_outputs@[i].local_lines@.map_values(|v: Vec<u8>| v@)
                        == seq![tile_header_bytes()] + run.tiles[i].map_values(
                        |w: (Seq<u8>, Seq<u8>)| w.0,
                    ))
            }
        }),
{
    let ghost ts = tiles@.map_values(|t: Vec<Vec<u8>>| t.deep_view());
    let ghost run = dedup_run_spec(ts, Set::<Seq<u8>>::empty());
    let mut engine = DedupEngine::new();
    let mut tile_outputs: Vec<TileDedupResult> = Vec::new();
    let mut whitelist: Vec<Vec<u8>> = Vec::new();
    let mut mapping: Vec<Vec<u8>> = Vec::new();
    let mut i: usize = 0;
    proof {
        assert(ts.subrange(0, ts.len() as int) =~= ts);
    }
    while i < tiles.len()
        invariant
            0 <= i <= tiles@.len(),
            ts == tiles@.map_values(|t: Vec<Vec<u8>>| t.deep_view()),
            run == dedup_run_spec(ts, Set::<Seq<u8>>::empty()),
            tile_outputs@.len() == i,
            run_partial(
                run,
                dedup_run_spec(ts.subrange(i as int, ts.len() as int), engine.seen()),
                tile_outputs@,
                whitelist@.map_values(|v: Vec<u8>| v@),
                mapping@.map_values(|v: Vec<u8>| v@),
            ),
        decreases tiles@.len() - i,
    {
        let ghost rest = ts.subrange(i as int, ts.len() as int);
        let ghost part = dedup_run_spec(rest, engine.seen());
        let ghost wl0 = whitelist@.map_values(|v: Vec<u8>| v@);
        let ghost mp0 = mapping@.map_values(|v: Vec<u8>| v@);
        let ghost outs0 = tile_outputs@;
        proof {
            assert(rest[0] == ts[i as int]);
            assert(ts[i as int] == tiles@[i as int].deep_view());
            assert(tiles@[i as int].deep_view() =~~= tiles@[i as int]@.map_values(
                |l: Vec<u8>| l@,
            ));
            assert(rest.drop_first() =~= ts.subrange(i + 1, ts.len() as int));
        }
        let tile = &tiles[i];
        let ghost t = tile_dedup_spec(rest[0], engine.seen());
        match engine.process_tile(tile) {
            Err(e) => {
                proof {
                    assert(t.error);
                    assert(part.error);
                    assert(run.error);
                }
                return Err(e);
            },
            Ok(out) => {
                let ghost part2 = dedup_run_spec(rest.drop_first(), engine.seen());
                let mut k: usize = 0;
                let ghost tb = t.winners.map_values(|w: (Seq<u8>, Seq<u8>)| w.1);
                let ghost tm = t.winners.map_values(|w: (Seq<u8>, Seq<u8>)| w.0);
                while k < out.winner_barcodes.len()
                    invariant
                        0 <= k <= out.winner_barcodes@.len(),
                        out.winner_barcodes@.map_values(|v: Vec<u8>| v@) == tb,
                        out.winner_records@.map_values(|v: Vec<u8>| v@) == tm,
                        whitelist@.map_values(|v: Vec<u8>| v@) == wl0 + tb.subrange(0, k as int),
                        mapping@.map_values(|v: Vec<u8>| v@) == mp0 + tm.subrange(0, k as int),
                        out.winner_records@.len() == out.winner_barcodes@.len(),
                    decreases out.winner_barcodes@.len() - k,
                {
                    let ghost wlk = whitelist@.map_values(|v: Vec<u8>| v@);
                    let ghost mpk = mapping@.map_values(|v: Vec<u8>| v@);
                    whitelist.push(vstd::slice::slice_to_vec(out.winner_barcodes[k].as_slice()));
                    mapping.push(vstd::slice::slice_to_vec(out.winner_records[k].as_slice()));
                    proof {
                        assert(whitelist@.map_values(|v: Vec<u8>| v@) =~= wlk.push(tb[k as int]));
                        assert(mapping@.map_values(|v: Vec<u8>| v@) =~= mpk.push(tm[k as int]));
                        assert(wlk.push(tb[k as int]) =~= wl0 + tb.subrange(0, k + 1));
                        assert(mpk.push(tm[k as int]) =~= mp0 + tm.subrange(0, k + 1));
                    }
                    k += 1;
                }
                proof {
                    assert(tb.subrange(0, tb.len() as int) =~= tb);
                    assert(tm.subrange(0, tm.len() as int) =~= tm);
                    assert(part.whitelist == tb + part2.whitelist);
                    assert(part.mapping == tm + part2.mapping);
                    assert(part.tiles == seq![t.winners] + part2.tiles);
                    lemma_run_partial_step(run, part, part2, outs0, out, wl0, mp0, t.winners);
                }
                tile_outputs.push(out);
            },
        }
        i += 1;
    }
    proof {
        assert(ts.subrange(i as int, ts.len() as int) =~= Seq::<Seq<Seq<u8>>>::empty());
        let part = dedup_run_spec(Seq::<Seq<Seq<u8>>>::empty(), engine.seen());
        assert(!run.error);
        assert(run.whitelist =~= whitelist@.map_values(|v: Vec<u8>| v@));
        assert(run.mapping =~= mapping@.map_values(|v: Vec<u8>| v@));
        assert(run.tiles.len() == ts.len());
        assert forall|j: int| 0 <= j < ts.len() implies (
        #[trigger] tile_outputs@[j]).winner_records@.map_values(|v: Vec<u8>| v@)
            == run.tiles[j].map_values(|w: (Seq<u8>, Seq<u8>)| w.0)
            && tile_outputs@[j].winner_barcodes@.map_values(|v: Vec<u8>| v@)
            == run.tiles[j].map_values(|w: (Seq<u8>, Seq<u8>)| w.1)
            && tile_outputs@[j].local_lines@.map_values(|v: Vec<u8>| v@) == seq![
            tile_header_bytes()] + run.tiles[j].map_values(|w: (Seq<u8>, Seq<u8>)| w.0) by {
        }
    }
    Ok(DedupOutput { tile_outputs, whitelist, mapping })
}

/// The run loop's bookkeeping: the whole run equals what was already
/// aggregated followed by what the remaining tiles yield, and the
/// collected per-tile outputs match the run's winner lists.
pub open spec fn run_partial(
    run: DedupRunV,
    part: DedupRunV,
    outs: Seq<TileDedupResult>,
    wl: Seq<Seq<u8>>,
    mp: Seq<Seq<u8>>,
) -> bool {
    &&& run.error == part.error
    &&& run.seen == part.seen
    &&& run.whitelist == wl + part.whitelist
    &&& run.mapping == mp + part.mapping
    &&& run.tiles.len() == outs.len() + part.tiles.len()
    &&& forall|j: int|
        0 <= j < outs.len() ==> (#[trigger] outs[j]).winner_records@.map_values(|v: Vec<u8>| v@)
            == run.tiles[j].map_values(|w: (Seq<u8>, Seq<u8>)| w.0)
            && outs[j].winner_barcodes@.map_values(|v: Vec<u8>| v@) == run.tiles[j].map_values(
            |w: (Seq<u8>, Seq<u8>)| w.1,
        ) && outs[j].local_lines@.map_values(|v: Vec<u8>| v@) == seq![tile_header_bytes()]
            + run.tiles[j].map_values(|w: (Seq<u8>, Seq<u8>)| w.0)
    &&& forall|j: int|
        outs.len() <= j < run.tiles.len() ==> run.tiles[j] == part.tiles[j - outs.len()]
}

proof fn lemma_run_partial_step(
    run: DedupRunV,
    part: DedupRunV,
    part2: DedupRunV,
    outs: Seq<TileDedupResult>,
    out: TileDedupResult,
    wl: Seq<Seq<u8>>,
    mp: Seq<Seq<u8>>,
    winners: Seq<(Seq<u8>, Seq<u8>)>,
)
    requires
        run_partial(run, part, outs, wl, mp),
        part.error == part2.error,
        part.seen == part2.seen,
        part.whitelist == winners.map_values(|w: (Seq<u8>, Seq<u8>)| w.1) + part2.whitelist,
        part.mapping == winners.map_values(|w: (Seq<u8>, Seq<u8>)| w.0) + part2.mapping,
        part.tiles == seq![winners] + part2.tiles,
        out.winner_records@.map_values(|v: Vec<u8>| v@) == winners.map_values(
            |w: (Seq<u8>, Seq<u8>)| w.0,
        ),
        out.winner_barcodes@.map_values(|v: Vec<u8>| v@) == winners.map_values(
            |w: (Seq<u8>, Seq<u8>)| w.1,
        ),
        out.local_lines@.map_values(|v: Vec<u8>| v@) == seq![tile_header_bytes()]
            + winners.map_values(|w: (Seq<u8>, Seq<u8>)| w.0),
    ensures
        run_partial(
            run,
            part2,
            outs.push(out),
            wl + winners.map_values(|w: (Seq<u8>, Seq<u8>)| w.1),
            mp + winners.map_values(|w: (Seq<u8>, Seq<u8>)| w.0),
        ),
{
    let f0 = |w: (Seq<u8>, Seq<u8>)| w.0;
    let f1 = |w: (Seq<u8>, Seq<u8>)| w.1;
    assert(run.whitelist =~= (wl + winners.map_values(f1)) + part2.whitelist);
    assert(run.mapping =~= (mp + winners.map_values(f0)) + part2.mapping);
    assert(run.tiles[outs.len() as int] == winners);
    assert forall|j: int| 0 <= j < outs.push(out).len() implies (
    #[trigger] outs.push(out)[j]).winner_records@.map_values(|v: Vec<u8>| v@)
        == run.tiles[j].map_values(f0) && outs.push(out)[j].winner_barcodes@.map_values(
        |v: Vec<u8>| v@,
    ) == run.tiles[j].map_values(f1) && outs.push(out)[j].local_lines@.map_values(|v: Vec<u8>| v@)
        == seq![tile_header_bytes()] + run.tiles[j].map_values(f0) by {
        if j < outs.len() {
            assert(outs.push(out)[j] == outs[j]);
        } else {
            assert(outs.push(out)[j] == out);
        }
    }
    assert forall|j: int|
        outs.push(out).len() <= j < run.tiles.len() implies run.tiles[j] == part2.tiles[j
        - outs.push(out).len()] by {
        assert(run.tiles[j] == part.tiles[j - outs.len()]);
        assert(part.tiles[j - outs.len()] == part2.tiles[j - outs.len() - 1]);
    }
}

} // verus!
