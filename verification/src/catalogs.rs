//! The reference catalogs: valid measurement-unit symbols and valid
//! asset-type ids, parsed from reference texts.

use vstd::prelude::*;
use crate::text::{is_u32_str, lines_spec, parse_u32, split_char, split_on, split_lines, trim_spec, trim_str, u32_str_val};

verus! {

broadcast use vstd::set::group_set_axioms, Seq::<_>::lemma_push_to_set_commute;

/// A comment line in the unit reference data: starts with two dashes.
pub open spec fn is_comment_line(t: Seq<char>) -> bool {
    t.len() >= 2 && t[0] == '-' && t[1] == '-'
}

/// The unit symbols one line contributes: none for a blank or comment
/// line, else the comma-separated pieces of the trimmed line.
pub open spec fn line_units(line: Seq<char>) -> Set<Seq<char>> {
    let t = trim_spec(line);
    if t.len() == 0 || is_comment_line(t) {
        Set::<Seq<char>>::empty()
    } else {
        split_on(t, ',').to_set()
    }
}

/// The unit symbols of a sequence of lines.
pub open spec fn units_of_lines(ls: Seq<Seq<char>>) -> Set<Seq<char>>
    decreases ls.len(),
{
    if ls.len() == 0 {
        Set::<Seq<char>>::empty()
    } else {
        units_of_lines(ls.drop_last()).union(line_units(ls.last()))
    }
}

/// The set of valid unit symbols in a reference text.
pub open spec fn units_of(text: Seq<char>) -> Set<Seq<char>> {
    units_of_lines(lines_spec(text))
}

/// The set of valid measurement-unit symbols.
pub struct UnitCatalog {
    pub symbols: Vec<String>,
}

impl View for UnitCatalog {
    type V = Set<Seq<char>>;

    open spec fn view(&self) -> Set<Seq<char>> {
        self.symbols.deep_view().to_set()
    }
}

impl UnitCatalog {
    /// Whether the symbol is a valid unit.
    pub fn contains_symbol(&self, unit: &String) -> (r: bool)
        ensures
            r == self@.contains(unit@),
    {
        let n = self.symbols.len();
        let mut i: usize = 0;
        while i < n
            invariant
                i <= n,
                n == self.symbols@.len(),
                forall|k: int| 0 <= k < i ==> self.symbols.deep_view()[k] != unit@,
            decreases n - i,
        {
            if self.symbols[i].eq(unit) {
                proof {
                    assert(self.symbols.deep_view()[i as int] == unit@);
                    assert(self.symbols.deep_view().contains(unit@));
                }
                return true;
            }
            i = i + 1;
        }
        proof {
            if self.symbols.deep_view().contains(unit@) {
                let k = choose|k: int|
                    0 <= k < self.symbols.deep_view().len() && self.symbols.deep_view()[k]
                        == unit@;
                assert(false);
            }
        }
        false
    }
}

/// Return a catalog of all units found by parsing the reference text:
/// blank lines and `--` comment lines are ignored, every other line is
/// a comma-separated list of symbols, all added individually.
pub fn units(units_txt: &str) -> (r: UnitCatalog)
    ensures
        r@ == units_of(units_txt@),
{
    let lines = split_lines(units_txt);
    let ghost lns = lines_spec(units_txt@);
    let n = lines.len();
    let mut symbols: Vec<String> = Vec::new();
    let mut i: usize = 0;
    proof {
        assert(symbols.deep_view().to_set() =~= units_of_lines(lns.take(0)));
    }
    while i < n
        invariant
            i <= n,
            n == lns.len(),
            lines.deep_view() == lns,
            symbols.deep_view().to_set() == units_of_lines(lns.take(i as int)),
        decreases n - i,
    {
        let t = trim_str(lines[i].as_str());
        proof {
            assert(lines.deep_view()[i as int] == lines@[i as int]@);
            assert(t@ == trim_spec(lns[i as int]));
        }
        let tn = t.as_str().unicode_len();
        let is_comment = tn >= 2 && t.as_str().get_char(0) == '-' && t.as_str().get_char(1) == '-';
        if tn > 0 && !is_comment {
            let pieces = split_char(t.as_str(), ',');
            let ghost piecesv = split_on(t@, ',');
            let m = pieces.len();
            let mut j: usize = 0;
            proof {
                assert(symbols.deep_view().to_set() =~= units_of_lines(lns.take(i as int)).union(
                    piecesv.take(0).to_set(),
                ));
            }
            while j < m
                invariant
                    j <= m,
                    m == piecesv.len(),
                    pieces.deep_view() == piecesv,
                    symbols.deep_view().to_set() == units_of_lines(lns.take(i as int)).union(
                        piecesv.take(j as int).to_set(),
                    ),
                decreases m - j,
            {
                let ghost prev = symbols.deep_view();
                symbols.push(pieces[j].clone());
                proof {
                    assert(pieces.deep_view()[j as int] == pieces@[j as int]@);
                    assert(symbols.deep_view() =~= prev.push(piecesv[j as int]));
                    assert forall|x: Seq<char>|
                        symbols.deep_view().to_set().contains(x) <==> prev.push(
                            piecesv[j as int],
                        ).contains(x) by {}
                    assert(piecesv.take(j + 1) =~= piecesv.take(j as int).push(piecesv[j as int]));
                    assert(symbols.deep_view().to_set() =~= units_of_lines(lns.take(
                        i as int,
                    )).union(piecesv.take(j + 1).to_set()));
                }
                j = j + 1;
            }
            proof {
                assert(piecesv.take(m as int) =~= piecesv);
                assert(line_units(lns[i as int]) == piecesv.to_set());
                assert(lns.take(i + 1).drop_last() =~= lns.take(i as int));
                assert(lns.take(i + 1).last() == lns[i as int]);
                assert(symbols.deep_view().to_set() =~= units_of_lines(lns.take(i + 1)));
            }
        } else {
            proof {
                assert(line_units(lns[i as int]) =~= Set::<Seq<char>>::empty());
                assert(lns.take(i + 1).drop_last() =~= lns.take(i as int));
                assert(lns.take(i + 1).last() == lns[i as int]);
                assert(symbols.deep_view().to_set() =~= units_of_lines(lns.take(i + 1)));
            }
        }
        i = i + 1;
    }
    proof {
        assert(lns.take(n as int) =~= lns);
    }
    UnitCatalog { symbols }
}

/// Every line of the reference text parses as a `u32`.
pub open spec fn all_lines_u32(ls: Seq<Seq<char>>) -> bool {
    forall|i: int| 0 <= i < ls.len() ==> is_u32_str(#[trigger] ls[i])
}

/// The ids the lines hold.
pub open spec fn ids_of_lines(ls: Seq<Seq<char>>) -> Set<u32>
    decreases ls.len(),
{
    if ls.len() == 0 {
        Set::<u32>::empty()
    } else {
        ids_of_lines(ls.drop_last()).insert(u32_str_val(ls.last()) as u32)
    }
}

/// The set of valid numeric asset-type identifiers.
pub struct AssetTypeCatalog {
    pub ids: Vec<u32>,
}

impl View for AssetTypeCatalog {
    type V = Set<u32>;

    open spec fn view(&self) -> Set<u32> {
        self.ids@.to_set()
    }
}

impl AssetTypeCatalog {
    /// Whether the id is a valid asset-type id.
    pub fn contains_id(&self, id: u32) -> (r: bool)
        ensures
            r == self@.contains(id),
    {
        let n = self.ids.len();
        let mut i: usize = 0;
        while i < n
            invariant
                i <= n,
                n == self.ids@.len(),
                forall|k: int| 0 <= k < i ==> self.ids@[k] != id,
            decreases n - i,
        {
            if self.ids[i] == id {
                proof {
                    assert(self.ids@.contains(id));
                }
                return true;
            }
            i = i + 1;
        }
        proof {
            if self.ids@.contains(id) {
                let k = choose|k: int| 0 <= k < self.ids@.len() && self.ids@[k] == id;
                assert(false);
            }
        }
        false
    }
}

/// Return a catalog of the asset-type ids in the reference text, one
/// unsigned integer per line; `None` when any line does not parse.
pub fn arms_asset_type_ids(ids_txt: &str) -> (r: Option<AssetTypeCatalog>)
    ensures
        r is Some <==> all_lines_u32(lines_spec(ids_txt@)),
        r is Some ==> r->0@ == ids_of_lines(lines_spec(ids_txt@)),
{
    let lines = split_lines(ids_txt);
    let ghost lns = lines_spec(ids_txt@);
    let n = lines.len();
    let mut ids: Vec<u32> = Vec::new();
    let mut i: usize = 0;
    proof {
        assert(ids@.to_set() =~= ids_of_lines(lns.take(0)));
    }
    while i < n
        invariant
            i <= n,
            n == lns.len(),
            lns == lines_spec(ids_txt@),
            lines.deep_view() == lns,
            forall|k: int| 0 <= k < i ==> is_u32_str(#[trigger] lns[k]),
            ids@.to_set() == ids_of_lines(lns.take(i as int)),
        decreases n - i,
    {
        proof {
            assert(lines.deep_view()[i as int] == lines@[i as int]@);
        }
        match parse_u32(lines[i].as_str()) {
            None => {
                proof {
                    assert(!is_u32_str(lns[i as int]));
                }
                return None;
            },
            Some(v) => {
                let ghost prev = ids@;
                ids.push(v);
                proof {
                    assert(lns.take(i + 1).drop_last() =~= lns.take(i as int));
                    assert(lns.take(i + 1).last() == lns[i as int]);
                    assert(ids@ =~= prev.push(v));
                    assert(ids@.to_set() =~= prev.to_set().insert(v));
                    assert(ids@.to_set() =~= ids_of_lines(lns.take(i + 1)));
                }
            },
        }
        i = i + 1;
    }
    proof {
        assert(lns.take(n as int) =~= lns);
    }
    Some(AssetTypeCatalog { ids })
}

} // verus!
