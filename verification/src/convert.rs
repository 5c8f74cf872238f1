//! The conversion engine: resolves the target and every source unit,
//! aggregates source components per regional ratio variant, divides by each
//! target variant ratio (or applies a temperature formula), and renders one
//! result row per source-variant × target-variant combination.

use vstd::prelude::*;
use crate::catalog::{Catalog, CatalogV, Scale, UnitV, VariantV, Conversion, Variant, catalog_ok, unit_ok};
use crate::rational::{
    Rat, Rational, rat_wf, rat_add, rat_mul, rat_div, add_fits, mul_fits, div_fits,
};
use crate::text::string_from_chars;
use crate::tokenize::find_char;

verus! {

/// One output row of a conversion.
pub struct ConversionResult {
    pub family: String,
    pub source_display: String,
    pub source_variant: Option<String>,
    pub value: String,
    pub target_abbr: String,
    pub target_variant: Option<String>,
}

pub ghost struct ConversionResultV {
    pub family: Seq<char>,
    pub source_display: Seq<char>,
    pub source_variant: Option<Seq<char>>,
    pub value: Seq<char>,
    pub target_abbr: Seq<char>,
    pub target_variant: Option<Seq<char>>,
}

impl View for ConversionResult {
    type V = ConversionResultV;

    open spec fn view(&self) -> ConversionResultV {
        ConversionResultV {
            family: self.family@,
            source_display: self.source_display@,
            source_variant: match self.source_variant {
                Some(s) => Some(s@),
                None => None,
            },
            value: self.value@,
            target_abbr: self.target_abbr@,
            target_variant: match self.target_variant {
                Some(s) => Some(s@),
                None => None,
            },
        }
    }
}

/// Why a conversion produced no results.
pub enum ConversionError {
    /// The input has no `=` or `to` separator.
    NoSeparator,
    /// The input could not be split or no value/unit token could be read.
    Parse,
    /// Unit texts that resolve to nothing, in or out of the required family.
    UnknownUnit(Vec<String>),
    /// The target's family and the family a source actually belongs to.
    FamilyMismatch(String, String),
    /// A formula-based target was given a compound source.
    FormulaCompound,
    /// The formula has no transform for this source unit; holds its
    /// abbreviation.
    FormulaTransform(String),
    /// An intermediate number left the 128-bit range.
    ValueOverflow,
}

/// The first index at or after `i` whose key equals `label`.
pub open spec fn key_index(m: Seq<(Seq<char>, Rat)>, label: Seq<char>, i: int) -> Option<int>
    decreases m.len() - i,
    when 0 <= i <= m.len()
{
    if i >= m.len() {
        None
    } else if m[i].0 == label {
        Some(i)
    } else {
        key_index(m, label, i + 1)
    }
}

/// Adds `v` to the running total for `label`, appending a new key in
/// insertion order when it is not present; `None` when the sum leaves the
/// 128-bit range.
pub open spec fn upsert_total(m: Seq<(Seq<char>, Rat)>, label: Seq<char>, v: Rat) -> Option<
    Seq<(Seq<char>, Rat)>,
> {
    match key_index(m, label, 0) {
        Some(ix) => if add_fits(m[ix].1, v) {
            Some(m.update(ix, (label, rat_add(m[ix].1, v))))
        } else {
            None
        },
        None => Some(m.push((label, v))),
    }
}

/// One source token contributes `value × ratio` to every variant label its
/// unit carries, in declaration order.
pub open spec fn variants_contrib(
    m: Seq<(Seq<char>, Rat)>,
    vars: Seq<VariantV>,
    value: Rat,
    k: int,
) -> Option<Seq<(Seq<char>, Rat)>>
    decreases vars.len() - k,
    when 0 <= k <= vars.len()
{
    if k >= vars.len() {
        Some(m)
    } else if mul_fits(value, vars[k].ratio) {
        match upsert_total(m, vars[k].label, rat_mul(value, vars[k].ratio)) {
            Some(m2) => variants_contrib(m2, vars, value, k + 1),
            None => None,
        }
    } else {
        None
    }
}

/// Base-unit totals per variant label over a token list, accumulated left
/// to right.
pub open spec fn totals_of(
    cat: CatalogV,
    fam: int,
    toks: Seq<(Rat, int)>,
    m: Seq<(Seq<char>, Rat)>,
) -> Option<Seq<(Seq<char>, Rat)>>
    decreases toks.len(),
{
    if toks.len() == 0 {
        Some(m)
    } else {
        let u = cat.families[fam].units[toks[0].1];
        match variants_contrib(m, u.variants, toks[0].0, 0) {
            Some(m2) => totals_of(cat, fam, toks.skip(1), m2),
            None => None,
        }
    }
}

pub open spec fn view_toks(toks: Seq<(Rational, usize)>) -> Seq<(Rat, int)> {
    toks.map_values(|p: (Rational, usize)| (p.0@, p.1 as int))
}

pub open spec fn view_totals(v: Seq<(String, Rational)>) -> Seq<(Seq<char>, Rat)> {
    v.map_values(|p: (String, Rational)| (p.0@, p.1@))
}

/// All stored rationals are well-formed at the representation level.
pub open spec fn totals_ok(v: Seq<(String, Rational)>) -> bool {
    forall|i: int| 0 <= i < v.len() ==> (#[trigger] v[i]).1.wf()
}

/// Finds the position of `label` among the totals.
#[verifier::loop_isolation(false)]
fn find_key(m: &Vec<(String, Rational)>, label: &String) -> (r: Option<usize>)
    ensures
        match r {
            Some(ix) => key_index(view_totals(m@), label@, 0) == Some(ix as int) && ix
                < m@.len(),
            None => key_index(view_totals(m@), label@, 0) is None,
        },
{
    let mut i: usize = 0;
    while i < m.len()
        invariant
            i <= m@.len(),
            key_index(view_totals(m@), label@, 0) == key_index(view_totals(m@), label@, i as int),
        decreases m@.len() - i,
    {
        if m[i].0 == *label {
            return Some(i);
        }
        i = i + 1;
    }
    None
}

/// Accumulates the contributions of all resolved source tokens; `None` when
/// a product or sum leaves the 128-bit range.
#[verifier::loop_isolation(false)]
fn accumulate_totals(catalog: &Catalog, fam: usize, toks: &Vec<(Rational, usize)>) -> (r: Option<
    Vec<(String, Rational)>,
>)
    requires
        fam < catalog@.families.len(),
        catalog_ok(*catalog),
        forall|i: int|
            0 <= i < toks@.len() ==> (#[trigger] toks@[i]).1 < catalog@.families[
                fam as int
            ].units.len() && toks@[i].0.wf(),
    ensures
        match r {
            Some(v) => totals_of(catalog@, fam as int, view_toks(toks@), Seq::empty()) == Some(
                view_totals(v@),
            ) && totals_ok(v@),
            None => totals_of(catalog@, fam as int, view_toks(toks@), Seq::empty()) is None,
        },
{
    let ghost c = catalog@;
    let ghost all = view_toks(toks@);
    let mut m: Vec<(String, Rational)> = Vec::new();
    let mut t: usize = 0;
    proof {
        assert(view_totals(m@) =~= Seq::<(Seq<char>, Rat)>::empty());
        assert(all.skip(0) =~= all);
    }
    while t < toks.len()
        invariant
            t <= toks@.len(),
            totals_ok(m@),
            totals_of(c, fam as int, all, Seq::empty()) == totals_of(
                c,
                fam as int,
                all.skip(t as int),
                view_totals(m@),
            ),
        decreases toks@.len() - t,
    {
        let value = toks[t].0;
        let ui = toks[t].1;
        proof {
            assert(all[t as int] == (toks@[t as int].0@, toks@[t as int].1 as int));
            assert(all.skip(t as int)[0] == all[t as int]);
            assert(all.skip(t as int).skip(1) =~= all.skip(t + 1));
        }
        let unit = &catalog.families[fam].units[ui];
        proof {
            assert(catalog.families@[fam as int]@ == c.families[fam as int]);
            assert(catalog.families@[fam as int].units@[ui as int]@ == c.families[
                fam as int
            ].units[ui as int]);
        }
        let ghost vars = c.families[fam as int].units[ui as int].variants;
        match &unit.conversion {
            Conversion::Formula(_) => {
                proof {
                    assert(vars.len() == 0);
                    assert(variants_contrib(view_totals(m@), vars, value@, 0) == Some(
                        view_totals(m@),
                    ));
                }
            },
            Conversion::Ratios(vlist) => {
                proof {
                    assert(vars == vlist@.map_values(|v: crate::catalog::Variant| v@));
                }
                let nvar = vlist.len();
                let mut k: usize = 0;
                while k < nvar
                    invariant
                        k <= nvar,
                        nvar == vars.len(),
                        totals_ok(m@),
                        variants_contrib(view_totals(m@), vars, value@, k as int) is Some ==>
                            totals_of(c, fam as int, all, Seq::empty()) == totals_of(
                            c,
                            fam as int,
                            all.skip(t + 1),
                            variants_contrib(view_totals(m@), vars, value@, k as int)->Some_0,
                        ),
                        variants_contrib(view_totals(m@), vars, value@, k as int) is None ==>
                            totals_of(c, fam as int, all, Seq::empty()) is None,
                    decreases nvar - k,
                {
                    let var = &vlist[k];
                    proof {
                        assert(var@ == vars[k as int]);
                    }
                    let ghost m0 = view_totals(m@);
                    let x = match value.checked_times(&var.ratio) {
                        Some(x) => x,
                        None => {
                            proof {
                                assert(variants_contrib(m0, vars, value@, k as int) is None);
                            }
                            return None;
                        },
                    };
                    let label = var.label.clone();
                    let ghost added = rat_mul(value@, vars[k as int].ratio);
                    match find_key(&m, &label) {
                        Some(ix) => {
                            let cur = m[ix].1;
                            proof {
                                assert(m@[ix as int].1.wf());
                                assert(m0[ix as int].1 == cur@);
                            }
                            let sum = match cur.checked_plus(&x) {
                                Some(s) => s,
                                None => {
                                    proof {
                                        assert(upsert_total(m0, vars[k as int].label, added)
                                            is None);
                                        assert(variants_contrib(m0, vars, value@, k as int)
                                            is None);
                                    }
                                    return None;
                                },
                            };
                            m.remove(ix);
                            m.insert(ix, (label, sum));
                            proof {
                                assert(view_totals(m@) =~= m0.update(
                                    ix as int,
                                    (vars[k as int].label, rat_add(m0[ix as int].1, added)),
                                ));
                                assert(upsert_total(m0, vars[k as int].label, added) == Some(
                                    view_totals(m@),
                                ));
                            }
                        },
                        None => {
                            m.push((label, x));
                            proof {
                                assert(view_totals(m@) =~= m0.push(
                                    (vars[k as int].label, added),
                                ));
                                assert(upsert_total(m0, vars[k as int].label, added) == Some(
                                    view_totals(m@),
                                ));
                            }
                        },
                    }
                    proof {
                        assert(variants_contrib(m0, vars, value@, k as int)
                            == variants_contrib(view_totals(m@), vars, value@, k + 1));
                    }
                    k = k + 1;
                }
                proof {
                    assert(variants_contrib(view_totals(m@), vars, value@, nvar as int) == Some(
                        view_totals(m@),
                    ));
                }
            },
        }
        t = t + 1;
    }
    proof {
        assert(all.skip(t as int) =~= Seq::<(Rat, int)>::empty());
    }
    Some(m)
}


/// The ratio a unit is sorted by in the display: its first variant's ratio,
/// or zero for a formula unit.
pub open spec fn first_ratio_of(u: UnitV) -> Rat {
    if u.variants.len() > 0 {
        u.variants[0].ratio
    } else {
        Rat { n: 0, d: 1 }
    }
}

/// The first display item at or after `i` with this abbreviation.
pub open spec fn disp_key_index(m: Seq<(Seq<char>, Rat, Rat)>, abbr: Seq<char>, i: int) -> Option<
    int,
>
    decreases m.len() - i,
    when 0 <= i <= m.len()
{
    if i >= m.len() {
        None
    } else if m[i].0 == abbr {
        Some(i)
    } else {
        disp_key_index(m, abbr, i + 1)
    }
}

/// Merges one token into the display items: same-abbreviation tokens sum
/// their values; a new abbreviation is appended in first-appearance order.
pub open spec fn disp_upsert(
    m: Seq<(Seq<char>, Rat, Rat)>,
    abbr: Seq<char>,
    val: Rat,
    ratio: Rat,
) -> Option<Seq<(Seq<char>, Rat, Rat)>> {
    match disp_key_index(m, abbr, 0) {
        Some(ix) => if add_fits(m[ix].1, val) {
            Some(m.update(ix, (abbr, rat_add(m[ix].1, val), m[ix].2)))
        } else {
            None
        },
        None => Some(m.push((abbr, val, ratio))),
    }
}

/// The combined display items of a resolved token list, in first-appearance
/// order.
pub open spec fn display_items(
    cat: CatalogV,
    fam: int,
    toks: Seq<(Rat, int)>,
    m: Seq<(Seq<char>, Rat, Rat)>,
) -> Option<Seq<(Seq<char>, Rat, Rat)>>
    decreases toks.len(),
{
    if toks.len() == 0 {
        Some(m)
    } else {
        let u = cat.families[fam].units[toks[0].1];
        match disp_upsert(m, u.abbr, toks[0].0, first_ratio_of(u)) {
            Some(m2) => display_items(cat, fam, toks.skip(1), m2),
            None => None,
        }
    }
}

/// Stable insertion of one item into a list sorted by descending ratio: the
/// item goes after every item whose ratio compares greater or equal.
pub open spec fn insert_desc(
    s: Seq<(Seq<char>, Rat, Rat)>,
    it: (Seq<char>, Rat, Rat),
) -> Seq<(Seq<char>, Rat, Rat)>
    decreases s.len(),
{
    if s.len() == 0 {
        seq![it]
    } else if crate::rational::ge_total(s[0].2, it.2) {
        seq![s[0]] + insert_desc(s.skip(1), it)
    } else {
        seq![it] + s
    }
}

/// Stable sort by descending ratio, so the largest physical unit is listed
/// first.
pub open spec fn sort_desc(s: Seq<(Seq<char>, Rat, Rat)>) -> Seq<(Seq<char>, Rat, Rat)>
    decreases s.len(),
{
    if s.len() == 0 {
        Seq::empty()
    } else {
        insert_desc(sort_desc(s.drop_last()), s.last())
    }
}

/// One display item rendered as `value abbreviation`.
pub open spec fn render_item(it: (Seq<char>, Rat, Rat)) -> Option<Seq<char>> {
    if crate::rational::exact_render_fits(it.1) || crate::rational::round_fits(
        it.1,
        crate::rational::FULL_SCALE as nat,
    ) {
        Some(crate::rational::spec_render_value(it.1) + seq![' '] + it.0)
    } else {
        None
    }
}

/// The display items joined with single spaces, from `i` on.
pub open spec fn render_items(s: Seq<(Seq<char>, Rat, Rat)>, i: int) -> Option<Seq<char>>
    decreases s.len() - i,
    when 0 <= i <= s.len()
{
    if i >= s.len() {
        Some(Seq::empty())
    } else {
        match (render_item(s[i]), render_items(s, i + 1)) {
            (Some(head), Some(tail)) => if i + 1 < s.len() {
                Some(head + seq![' '] + tail)
            } else {
                Some(head)
            },
            _ => None,
        }
    }
}

/// The whole source-side display string of a resolved token list.
pub open spec fn spec_display(cat: CatalogV, fam: int, toks: Seq<(Rat, int)>) -> Option<
    Seq<char>,
> {
    match display_items(cat, fam, toks, Seq::empty()) {
        Some(items) => render_items(sort_desc(items), 0),
        None => None,
    }
}

/// Items carried by the executable display builder.
pub open spec fn view_disp(v: Seq<(String, Rational, Rational)>) -> Seq<(Seq<char>, Rat, Rat)> {
    v.map_values(|p: (String, Rational, Rational)| (p.0@, p.1@, p.2@))
}

pub open spec fn disp_ok(v: Seq<(String, Rational, Rational)>) -> bool {
    forall|i: int|
        0 <= i < v.len() ==> (#[trigger] v[i]).1.wf() && v[i].2.wf()
}

#[verifier::loop_isolation(false)]
fn find_disp_key(m: &Vec<(String, Rational, Rational)>, abbr: &String) -> (r: Option<usize>)
    ensures
        match r {
            Some(ix) => disp_key_index(view_disp(m@), abbr@, 0) == Some(ix as int) && ix
                < m@.len(),
            None => disp_key_index(view_disp(m@), abbr@, 0) is None,
        },
{
    let mut i: usize = 0;
    while i < m.len()
        invariant
            i <= m@.len(),
            disp_key_index(view_disp(m@), abbr@, 0) == disp_key_index(
                view_disp(m@),
                abbr@,
                i as int,
            ),
        decreases m@.len() - i,
    {
        if m[i].0 == *abbr {
            return Some(i);
        }
        i = i + 1;
    }
    None
}

/// First ratio of a unit at the representation level.
fn first_ratio_x(unit: &crate::catalog::Unit) -> (r: Rational)
    requires
        unit_ok(*unit),
    ensures
        r.wf(),
        r@ == first_ratio_of(unit@),
{
    match &unit.conversion {
        Conversion::Ratios(vs) => {
            if vs.len() > 0 {
                proof {
                    assert(vs@[0]@ == unit@.variants[0]);
                }
                vs[0].ratio
            } else {
                Rational::zero()
            }
        },
        Conversion::Formula(_) => Rational::zero(),
    }
}

/// Builds the combined display items for the resolved tokens.
#[verifier::loop_isolation(false)]
fn build_display_items(catalog: &Catalog, fam: usize, toks: &Vec<(Rational, usize)>) -> (r:
    Option<Vec<(String, Rational, Rational)>>)
    requires
        fam < catalog@.families.len(),
        catalog_ok(*catalog),
        forall|i: int|
            0 <= i < toks@.len() ==> (#[trigger] toks@[i]).1 < catalog@.families[
                fam as int
            ].units.len() && toks@[i].0.wf(),
    ensures
        match r {
            Some(v) => display_items(catalog@, fam as int, view_toks(toks@), Seq::empty())
                == Some(view_disp(v@)) && disp_ok(v@),
            None => display_items(catalog@, fam as int, view_toks(toks@), Seq::empty()) is None,
        },
{
    let ghost c = catalog@;
    let ghost all = view_toks(toks@);
    let mut m: Vec<(String, Rational, Rational)> = Vec::new();
    let mut t: usize = 0;
    proof {
        assert(view_disp(m@) =~= Seq::<(Seq<char>, Rat, Rat)>::empty());
        assert(all.skip(0) =~= all);
    }
    while t < toks.len()
        invariant
            t <= toks@.len(),
            disp_ok(m@),
            display_items(c, fam as int, all, Seq::empty()) == display_items(
                c,
                fam as int,
                all.skip(t as int),
                view_disp(m@),
            ),
        decreases toks@.len() - t,
    {
        let value = toks[t].0;
        let ui = toks[t].1;
        proof {
            assert(all[t as int] == (toks@[t as int].0@, toks@[t as int].1 as int));
            assert(all.skip(t as int)[0] == all[t as int]);
            assert(all.skip(t as int).skip(1) =~= all.skip(t + 1));
        }
        let unit = &catalog.families[fam].units[ui];
        proof {
            assert(catalog.families@[fam as int]@ == c.families[fam as int]);
            assert(catalog.families@[fam as int].units@[ui as int]@ == c.families[
                fam as int
            ].units[ui as int]);
        }
        let ghost uv = c.families[fam as int].units[ui as int];
        let fr = first_ratio_x(unit);
        let abbr = unit.abbr.clone();
        let ghost m0 = view_disp(m@);
        match find_disp_key(&m, &abbr) {
            Some(ix) => {
                let cur = m[ix].1;
                proof {
                    assert(m@[ix as int].1.wf());
                    assert(m0[ix as int].1 == cur@);
                }
                let sum = match cur.checked_plus(&value) {
                    Some(s) => s,
                    None => {
                        proof {
                            assert(disp_upsert(m0, uv.abbr, value@, first_ratio_of(uv))
                                is None);
                        }
                        return None;
                    },
                };
                let keep = m[ix].2;
                m.remove(ix);
                m.insert(ix, (abbr, sum, keep));
                proof {
                    assert(view_disp(m@) =~= m0.update(
                        ix as int,
                        (uv.abbr, rat_add(m0[ix as int].1, value@), m0[ix as int].2),
                    ));
                    assert(disp_upsert(m0, uv.abbr, value@, first_ratio_of(uv)) == Some(
                        view_disp(m@),
                    ));
                }
            },
            None => {
                m.push((abbr, value, fr));
                proof {
                    assert(view_disp(m@) =~= m0.push((uv.abbr, value@, first_ratio_of(uv))));
                    assert(disp_upsert(m0, uv.abbr, value@, first_ratio_of(uv)) == Some(
                        view_disp(m@),
                    ));
                }
            },
        }
        t = t + 1;
    }
    proof {
        assert(all.skip(t as int) =~= Seq::<(Rat, int)>::empty());
    }
    Some(m)
}

/// Sorts the display items by descending ratio, stably.
#[verifier::loop_isolation(false)]
fn sort_display(items: Vec<(String, Rational, Rational)>) -> (r: Vec<
    (String, Rational, Rational),
>)
    requires
        disp_ok(items@),
    ensures
        view_disp(r@) == sort_desc(view_disp(items@)),
        disp_ok(r@),
{
    let mut out: Vec<(String, Rational, Rational)> = Vec::new();
    let mut t: usize = 0;
    proof {
        assert(view_disp(out@) =~= Seq::<(Seq<char>, Rat, Rat)>::empty());
        assert(view_disp(items@).subrange(0, 0) =~= Seq::<(Seq<char>, Rat, Rat)>::empty());
        assert(sort_desc(Seq::<(Seq<char>, Rat, Rat)>::empty()) == Seq::<(
            Seq<char>,
            Rat,
            Rat,
        )>::empty());
    }
    while t < items.len()
        invariant
            t <= items@.len(),
            disp_ok(out@),
            view_disp(out@) == sort_desc(view_disp(items@).subrange(0, t as int)),
        decreases items@.len() - t,
    {
        let it = (items[t].0.clone(), items[t].1, items[t].2);
        let ghost itv = (items@[t as int].0@, items@[t as int].1@, items@[t as int].2@);
        // find the insertion position: after every item with ratio >= this one
        let mut pos: usize = 0;
        while pos < out.len() && out[pos].2.ge_or_unordered(&it.2)
            invariant
                pos <= out@.len(),
                disp_ok(out@),
                forall|q: int|
                    0 <= q < pos ==> crate::rational::ge_total(
                        (#[trigger] view_disp(out@)[q]).2,
                        itv.2,
                    ),
            decreases out@.len() - pos,
        {
            pos = pos + 1;
        }
        proof {
            lemma_insert_desc_at(view_disp(out@), itv, pos as int);
        }
        out.insert(pos, it);
        proof {
            assert(view_disp(out@) =~= insert_desc(
                sort_desc(view_disp(items@).subrange(0, t as int)),
                itv,
            ));
            assert(view_disp(items@).subrange(0, t + 1).drop_last() =~= view_disp(
                items@,
            ).subrange(0, t as int));
            assert(view_disp(items@).subrange(0, t + 1).last() == itv);
        }
        t = t + 1;
    }
    proof {
        assert(view_disp(items@).subrange(0, t as int) =~= view_disp(items@));
    }
    out
}

/// Inserting at the first position whose ratio does not compare
/// greater-or-equal is exactly `insert_desc`.
proof fn lemma_insert_desc_at(s: Seq<(Seq<char>, Rat, Rat)>, it: (Seq<char>, Rat, Rat), pos: int)
    requires
        0 <= pos <= s.len(),
        forall|q: int| 0 <= q < pos ==> crate::rational::ge_total((#[trigger] s[q]).2, it.2),
        pos < s.len() ==> !crate::rational::ge_total(s[pos].2, it.2),
    ensures
        insert_desc(s, it) == s.subrange(0, pos) + seq![it] + s.subrange(pos, s.len() as int),
    decreases s.len(),
{
    if s.len() == 0 {
        assert(insert_desc(s, it) =~= s.subrange(0, pos) + seq![it] + s.subrange(
            pos,
            s.len() as int,
        ));
    } else if pos == 0 {
        assert(!crate::rational::ge_total(s[0].2, it.2));
        assert(insert_desc(s, it) =~= s.subrange(0, 0) + seq![it] + s.subrange(
            0,
            s.len() as int,
        ));
    } else {
        assert(crate::rational::ge_total(s[0].2, it.2));
        let tail = s.skip(1);
        assert(forall|q: int|
            0 <= q < pos - 1 ==> crate::rational::ge_total((#[trigger] tail[q]).2, it.2));
        lemma_insert_desc_at(tail, it, pos - 1);
        assert(insert_desc(s, it) == seq![s[0]] + insert_desc(tail, it));
        assert(seq![s[0]] + (tail.subrange(0, pos - 1) + seq![it] + tail.subrange(
            pos - 1,
            tail.len() as int,
        )) =~= s.subrange(0, pos) + seq![it] + s.subrange(pos, s.len() as int));
    }
}

/// Renders the sorted display items, space separated.
#[verifier::loop_isolation(false)]
fn render_display_x(items: &Vec<(String, Rational, Rational)>) -> (r: Option<Vec<char>>)
    requires
        disp_ok(items@),
    ensures
        match r {
            Some(v) => render_items(view_disp(items@), 0) == Some(v@),
            None => render_items(view_disp(items@), 0) is None,
        },
{
    let ghost s = view_disp(items@);
    let mut out: Vec<char> = Vec::new();
    let n = items.len();
    if n == 0 {
        proof {
            assert(render_items(s, 0) == Some(Seq::<char>::empty()));
            assert(out@ =~= Seq::<char>::empty());
        }
        return Some(out);
    }
    let mut t: usize = 0;
    while t < n
        invariant
            t <= n,
            n == items@.len(),
            render_items(s, 0) is Some <==> render_items(s, t as int) is Some,
            render_items(s, 0) matches Some(whole) ==> render_items(s, t as int) matches Some(
                tail,
            ) && whole == out@ + tail,
        decreases n - t,
    {
        let val = &items[t].1;
        let chars = match val.render_digits() {
            Some(v) => v,
            None => {
                proof {
                    assert(render_item(s[t as int]) is None);
                    assert(render_items(s, t as int) is None);
                }
                return None;
            },
        };
        let ghost out0 = out@;
        let mut chars2 = chars;
        out.append(&mut chars2);
        out.push(' ');
        crate::text::push_str_chars(&mut out, items[t].0.as_str());
        if t + 1 < n {
            out.push(' ');
        }
        proof {
            assert(render_item(s[t as int]) is Some);
            let head = render_item(s[t as int])->Some_0;
            if t + 1 < n {
                assert(out@ =~= out0 + head + seq![' ']);
            } else {
                assert(out@ =~= out0 + head);
            }
        }
        t = t + 1;
    }
    proof {
        assert(render_items(s, t as int) == Some(Seq::<char>::empty()));
        assert(out@ + Seq::<char>::empty() =~= out@);
    }
    Some(out)
}



/// `273.15` — the offset between Kelvin and Celsius.
pub open spec fn k_offset() -> Rat {
    crate::rational::rat_make(27315, 100)
}

/// `32` — the Fahrenheit freezing point.
pub open spec fn f_offset() -> Rat {
    Rat { n: 32, d: 1 }
}

/// `5 / 9` — Fahrenheit degrees to Celsius degrees.
pub open spec fn five_ninths() -> Rat {
    Rat { n: 5, d: 9 }
}

/// `9 / 5` — Celsius degrees to Fahrenheit degrees.
pub open spec fn nine_fifths() -> Rat {
    Rat { n: 9, d: 5 }
}

/// The pairwise transforms the formulas encode: every pair of distinct
/// scales, never a scale to itself.
pub open spec fn formula_pair(target: Scale, src: Scale) -> bool {
    target != src
}

/// The exact formula result, assuming every step fits.
pub open spec fn formula_result(target: Scale, src: Scale, v: Rat) -> Rat {
    match (target, src) {
        (Scale::Kelvin, Scale::Fahrenheit) => rat_add(
            rat_mul(rat_add(v, crate::rational::rat_neg(f_offset())), five_ninths()),
            k_offset(),
        ),
        (Scale::Kelvin, Scale::Celsius) => rat_add(v, k_offset()),
        (Scale::Celsius, Scale::Kelvin) => rat_add(v, crate::rational::rat_neg(k_offset())),
        (Scale::Celsius, Scale::Fahrenheit) => rat_mul(
            rat_add(v, crate::rational::rat_neg(f_offset())),
            five_ninths(),
        ),
        (Scale::Fahrenheit, Scale::Kelvin) => rat_add(
            rat_mul(rat_add(v, crate::rational::rat_neg(k_offset())), nine_fifths()),
            f_offset(),
        ),
        (Scale::Fahrenheit, Scale::Celsius) => rat_add(rat_mul(v, nine_fifths()), f_offset()),
        _ => v,
    }
}

/// All intermediate formula steps fit in 128 bits.
pub open spec fn formula_fits(target: Scale, src: Scale, v: Rat) -> bool {
    match (target, src) {
        (Scale::Kelvin, Scale::Fahrenheit) => add_fits(v, crate::rational::rat_neg(f_offset()))
            && mul_fits(rat_add(v, crate::rational::rat_neg(f_offset())), five_ninths())
            && add_fits(
            rat_mul(rat_add(v, crate::rational::rat_neg(f_offset())), five_ninths()),
            k_offset(),
        ),
        (Scale::Kelvin, Scale::Celsius) => add_fits(v, k_offset()),
        (Scale::Celsius, Scale::Kelvin) => add_fits(v, crate::rational::rat_neg(k_offset())),
        (Scale::Celsius, Scale::Fahrenheit) => add_fits(v, crate::rational::rat_neg(f_offset()))
            && mul_fits(rat_add(v, crate::rational::rat_neg(f_offset())), five_ninths()),
        (Scale::Fahrenheit, Scale::Kelvin) => add_fits(v, crate::rational::rat_neg(k_offset()))
            && mul_fits(rat_add(v, crate::rational::rat_neg(k_offset())), nine_fifths())
            && add_fits(
            rat_mul(rat_add(v, crate::rational::rat_neg(k_offset())), nine_fifths()),
            f_offset(),
        ),
        (Scale::Fahrenheit, Scale::Celsius) => mul_fits(v, nine_fifths()) && add_fits(
            rat_mul(v, nine_fifths()),
            f_offset(),
        ),
        _ => true,
    }
}

/// The `273.15` constant at the representation level.
fn k_offset_x() -> (r: Rational)
    ensures
        r.wf(),
        r@ == k_offset(),
{
    let r = Rational::from_decimal(27315, 2);
    proof {
        reveal_with_fuel(crate::rational::pow10, 4);
        assert(crate::rational::pow10(2) == 100);
    }
    r
}

fn f_offset_x() -> (r: Rational)
    ensures
        r.wf(),
        r@ == f_offset(),
{
    let r = Rational::from_decimal(32, 0);
    proof {
        reveal_with_fuel(crate::rational::pow10, 2);
        assert(crate::rational::pow10(0) == 1);
        assert(crate::rational::gcd(32nat, 1nat) == crate::rational::gcd(1nat, 0nat));
        assert(crate::rational::gcd(1nat, 0nat) == 1);
        assert(crate::rational::abs_int(32int) == 32nat);
        assert(crate::rational::reduce_frac(32, 1) == Rat { n: 32int / 1int, d: 1int / 1int });
        assert(crate::rational::rat_make(32, 1) == Rat { n: 32int, d: 1int });
    }
    r
}

fn five_ninths_x() -> (r: Rational)
    ensures
        r.wf(),
        r@ == five_ninths(),
{
    let r = match Rational::new(5, 9) {
        Some(x) => x,
        None => {
            proof {
                assert(false);
            }
            Rational::zero()
        },
    };
    proof {
        assert(crate::rational::gcd(5nat, 9nat) == crate::rational::gcd(9nat, 5nat));
        assert(crate::rational::gcd(9nat, 5nat) == crate::rational::gcd(5nat, 4nat));
        assert(crate::rational::gcd(5nat, 4nat) == crate::rational::gcd(4nat, 1nat));
        assert(crate::rational::gcd(4nat, 1nat) == crate::rational::gcd(1nat, 0nat));
        assert(crate::rational::gcd(1nat, 0nat) == 1);
        assert(crate::rational::abs_int(5int) == 5nat);
        assert(crate::rational::reduce_frac(5, 9) == Rat { n: 5int / 1int, d: 9int / 1int });
        assert(crate::rational::rat_make(5, 9) == Rat { n: 5int, d: 9int });
    }
    r
}

fn nine_fifths_x() -> (r: Rational)
    ensures
        r.wf(),
        r@ == nine_fifths(),
{
    let r = match Rational::new(9, 5) {
        Some(x) => x,
        None => {
            proof {
                assert(false);
            }
            Rational::zero()
        },
    };
    proof {
        assert(crate::rational::gcd(9nat, 5nat) == crate::rational::gcd(5nat, 4nat));
        assert(crate::rational::gcd(5nat, 4nat) == crate::rational::gcd(4nat, 1nat));
        assert(crate::rational::gcd(4nat, 1nat) == crate::rational::gcd(1nat, 0nat));
        assert(crate::rational::gcd(1nat, 0nat) == 1);
        assert(crate::rational::abs_int(9int) == 9nat);
        assert(crate::rational::reduce_frac(9, 5) == Rat { n: 9int / 1int, d: 5int / 1int });
        assert(crate::rational::rat_make(9, 5) == Rat { n: 9int, d: 5int });
    }
    r
}

/// Applies the pairwise temperature transform of the target scale to a
/// source value; `Err(false)` when the pair has no transform (the caller
/// reports the source abbreviation), `Err(true)` on 128-bit overflow.
fn apply_formula(target: Scale, src: Scale, v: &Rational) -> (r: Result<Rational, bool>)
    requires
        v.wf(),
    ensures
        match r {
            Ok(x) => formula_pair(target, src) && formula_fits(target, src, v@) && x.wf()
                && x@ == formula_result(target, src, v@),
            Err(overflow) => if overflow {
                formula_pair(target, src) && !formula_fits(target, src, v@)
            } else {
                !formula_pair(target, src)
            },
        },
{
    if target == src {
        return Err(false);
    }
    match (target, src) {
        (Scale::Kelvin, Scale::Fahrenheit) => {
            let a = match v.checked_plus(&f_offset_x().negated()) {
                Some(x) => x,
                None => {
                    return Err(true);
                },
            };
            let b = match a.checked_times(&five_ninths_x()) {
                Some(x) => x,
                None => {
                    return Err(true);
                },
            };
            match b.checked_plus(&k_offset_x()) {
                Some(x) => Ok(x),
                None => Err(true),
            }
        },
        (Scale::Kelvin, Scale::Celsius) => {
            match v.checked_plus(&k_offset_x()) {
                Some(x) => Ok(x),
                None => Err(true),
            }
        },
        (Scale::Celsius, Scale::Kelvin) => {
            match v.checked_plus(&k_offset_x().negated()) {
                Some(x) => Ok(x),
                None => Err(true),
            }
        },
        (Scale::Celsius, Scale::Fahrenheit) => {
            let a = match v.checked_plus(&f_offset_x().negated()) {
                Some(x) => x,
                None => {
                    return Err(true);
                },
            };
            match a.checked_times(&five_ninths_x()) {
                Some(x) => Ok(x),
                None => Err(true),
            }
        },
        (Scale::Fahrenheit, Scale::Kelvin) => {
            let a = match v.checked_plus(&k_offset_x().negated()) {
                Some(x) => x,
                None => {
                    return Err(true);
                },
            };
            let b = match a.checked_times(&nine_fifths_x()) {
                Some(x) => x,
                None => {
                    return Err(true);
                },
            };
            match b.checked_plus(&f_offset_x()) {
                Some(x) => Ok(x),
                None => Err(true),
            }
        },
        (Scale::Fahrenheit, Scale::Celsius) => {
            let a = match v.checked_times(&nine_fifths_x()) {
                Some(x) => x,
                None => {
                    return Err(true);
                },
            };
            match a.checked_plus(&f_offset_x()) {
                Some(x) => Ok(x),
                None => Err(true),
            }
        },
        _ => {
            proof {
                assert(false);
            }
            Err(false)
        },
    }
}



/// What a conversion amounts to, at the model level.
#[derive(PartialEq, Eq, Structural, Clone, Copy, Debug)]
pub enum OutcomeTag {
    /// Results were produced.
    Done,
    /// Some unit text resolved to nothing; the texts name them.
    Unknown,
    /// A source belongs to another family; the texts name both families.
    Mismatch,
    /// A formula target was given a compound source.
    Compound,
    /// The formula has no transform for the source; the text names it.
    Transform,
    /// An intermediate number left the 128-bit range.
    Overflow,
}

pub ghost struct ConvOutcome {
    pub tag: OutcomeTag,
    pub texts: Seq<Seq<char>>,
    pub results: Seq<ConversionResultV>,
}

/// Source resolution against the target family: the resolved tokens, the
/// unresolvable texts in order, and the family of the first token that
/// resolved outside the constraint (which aborts the conversion).
pub ghost struct SrcRes {
    pub resolved: Seq<(Rat, int)>,
    pub unknown: Seq<Seq<char>>,
    pub mismatch: Option<int>,
}

pub open spec fn resolve_sources(cat: CatalogV, fam: int, toks: Seq<(Rat, Seq<char>)>) -> SrcRes
    decreases toks.len(),
{
    if toks.len() == 0 {
        SrcRes { resolved: Seq::empty(), unknown: Seq::empty(), mismatch: None }
    } else {
        let h = toks[0];
        match crate::resolve::spec_resolve(cat, h.1, Some(fam)) {
            Some(r) => {
                let rest = resolve_sources(cat, fam, toks.skip(1));
                SrcRes {
                    resolved: seq![(h.0, r.1)] + rest.resolved,
                    unknown: rest.unknown,
                    mismatch: rest.mismatch,
                }
            },
            None => match crate::resolve::spec_resolve(cat, h.1, None) {
                Some(r2) => SrcRes {
                    resolved: Seq::empty(),
                    unknown: Seq::empty(),
                    mismatch: Some(r2.0),
                },
                None => {
                    let rest = resolve_sources(cat, fam, toks.skip(1));
                    SrcRes {
                        resolved: rest.resolved,
                        unknown: seq![h.1] + rest.unknown,
                        mismatch: rest.mismatch,
                    }
                },
            },
        }
    }
}

/// Distinct texts, first occurrences kept in order.
pub open spec fn dedup_texts(s: Seq<Seq<char>>) -> Seq<Seq<char>>
    decreases s.len(),
{
    if s.len() == 0 {
        Seq::empty()
    } else {
        let d = dedup_texts(s.drop_last());
        if d.contains(s.last()) {
            d
        } else {
            d.push(s.last())
        }
    }
}

pub open spec fn view_texts(v: Seq<String>) -> Seq<Seq<char>> {
    v.map_values(|s: String| s@)
}

pub open spec fn view_strtoks(v: Seq<(Rational, String)>) -> Seq<(Rat, Seq<char>)> {
    v.map_values(|p: (Rational, String)| (p.0@, p.1@))
}

/// One output row at the model level.
pub open spec fn row(
    fam_name: Seq<char>,
    disp: Seq<char>,
    sv: Option<Seq<char>>,
    value: Seq<char>,
    abbr: Seq<char>,
    tv: Option<Seq<char>>,
) -> ConversionResultV {
    ConversionResultV {
        family: fam_name,
        source_display: disp,
        source_variant: sv,
        value: value,
        target_abbr: abbr,
        target_variant: tv,
    }
}

/// The rows one source-variant total produces: one per target variant, in
/// declaration order.
pub open spec fn target_rows(
    fam_name: Seq<char>,
    disp: Seq<char>,
    tvars: Seq<VariantV>,
    tgt_abbr: Seq<char>,
    label: Seq<char>,
    total: Rat,
    multiple: bool,
    prec: int,
    j: int,
) -> Option<Seq<ConversionResultV>>
    decreases tvars.len() - j,
    when 0 <= j <= tvars.len()
{
    if j >= tvars.len() {
        Some(Seq::empty())
    } else {
        let tv = tvars[j];
        if tv.ratio.n != 0 && div_fits(total, tv.ratio) && crate::rational::round_fits(
            rat_div(total, tv.ratio),
            prec as nat,
        ) {
            match target_rows(fam_name, disp, tvars, tgt_abbr, label, total, multiple, prec, j + 1) {
                Some(rest) => Some(
                    seq![
                        row(
                            fam_name,
                            disp,
                            if multiple {
                                Some(label)
                            } else {
                                None
                            },
                            crate::rational::spec_format(rat_div(total, tv.ratio), prec as nat),
                            tgt_abbr,
                            if tvars.len() > 1 {
                                Some(tv.label)
                            } else {
                                None
                            },
                        ),
                    ] + rest,
                ),
                None => None,
            }
        } else {
            None
        }
    }
}

/// All rows of the ratio path: outer loop over source-variant totals in
/// insertion order, inner loop over target variants.
pub open spec fn totals_rows(
    fam_name: Seq<char>,
    disp: Seq<char>,
    tvars: Seq<VariantV>,
    tgt_abbr: Seq<char>,
    totals: Seq<(Seq<char>, Rat)>,
    prec: int,
    i: int,
) -> Option<Seq<ConversionResultV>>
    decreases totals.len() - i,
    when 0 <= i <= totals.len()
{
    if i >= totals.len() {
        Some(Seq::empty())
    } else {
        match target_rows(
            fam_name,
            disp,
            tvars,
            tgt_abbr,
            totals[i].0,
            totals[i].1,
            totals.len() > 1,
            prec,
            0,
        ) {
            Some(head) => match totals_rows(fam_name, disp, tvars, tgt_abbr, totals, prec, i + 1) {
                Some(rest) => Some(head + rest),
                None => None,
            },
            None => None,
        }
    }
}

/// The whole engine at the model level: target resolution, the
/// formula-compound check, source resolution, aggregation and row
/// production, exactly in that order.
pub open spec fn spec_convert(
    cat: CatalogV,
    target: Seq<char>,
    toks: Seq<(Rat, Seq<char>)>,
    prec: int,
) -> ConvOutcome {
    match crate::resolve::spec_resolve(cat, target, None) {
        None => ConvOutcome {
            tag: OutcomeTag::Unknown,
            texts: seq![target],
            results: Seq::empty(),
        },
        Some(t) => {
            let tf = t.0;
            let tunit = cat.families[tf].units[t.1];
            if tunit.formula is Some && toks.len() > 1 {
                ConvOutcome { tag: OutcomeTag::Compound, texts: Seq::empty(), results: Seq::empty() }
            } else {
                let sr = resolve_sources(cat, tf, toks);
                match sr.mismatch {
                    Some(mf) => ConvOutcome {
                        tag: OutcomeTag::Mismatch,
                        texts: seq![cat.families[tf].name, cat.families[mf].name],
                        results: Seq::empty(),
                    },
                    None => if sr.unknown.len() > 0 {
                        ConvOutcome {
                            tag: OutcomeTag::Unknown,
                            texts: dedup_texts(sr.unknown),
                            results: Seq::empty(),
                        }
                    } else {
                        match spec_display(cat, tf, sr.resolved) {
                            None => ConvOutcome {
                                tag: OutcomeTag::Overflow,
                                texts: Seq::empty(),
                                results: Seq::empty(),
                            },
                            Some(disp) => match tunit.formula {
                                Some(ts) => spec_convert_formula(cat, tf, tunit, ts, sr, disp, prec),
                                None => match totals_of(cat, tf, sr.resolved, Seq::empty()) {
                                    None => ConvOutcome {
                                        tag: OutcomeTag::Overflow,
                                        texts: Seq::empty(),
                                        results: Seq::empty(),
                                    },
                                    Some(totals) => match totals_rows(
                                        cat.families[tf].name,
                                        disp,
                                        tunit.variants,
                                        tunit.abbr,
                                        totals,
                                        prec,
                                        0,
                                    ) {
                                        Some(rows) => ConvOutcome {
                                            tag: OutcomeTag::Done,
                                            texts: Seq::empty(),
                                            results: rows,
                                        },
                                        None => ConvOutcome {
                                            tag: OutcomeTag::Overflow,
                                            texts: Seq::empty(),
                                            results: Seq::empty(),
                                        },
                                    },
                                },
                            },
                        }
                    },
                }
            }
        },
    }
}

/// The formula path of `spec_convert`, on the single resolved source token.
pub open spec fn spec_convert_formula(
    cat: CatalogV,
    tf: int,
    tunit: UnitV,
    ts: Scale,
    sr: SrcRes,
    disp: Seq<char>,
    prec: int,
) -> ConvOutcome {
    let v0 = sr.resolved[0].0;
    let su = cat.families[tf].units[sr.resolved[0].1];
    match su.formula {
        None => ConvOutcome {
            tag: OutcomeTag::Transform,
            texts: seq![su.abbr],
            results: Seq::empty(),
        },
        Some(ss) => if !formula_pair(ts, ss) {
            ConvOutcome { tag: OutcomeTag::Transform, texts: seq![su.abbr], results: Seq::empty() }
        } else if !formula_fits(ts, ss, v0) {
            ConvOutcome { tag: OutcomeTag::Overflow, texts: Seq::empty(), results: Seq::empty() }
        } else if crate::rational::round_fits(formula_result(ts, ss, v0), prec as nat) {
            ConvOutcome {
                tag: OutcomeTag::Done,
                texts: Seq::empty(),
                results: seq![
                    row(
                        cat.families[tf].name,
                        disp,
                        None,
                        crate::rational::spec_format(formula_result(ts, ss, v0), prec as nat),
                        tunit.abbr,
                        None,
                    ),
                ],
            }
        } else {
            ConvOutcome { tag: OutcomeTag::Overflow, texts: Seq::empty(), results: Seq::empty() }
        },
    }
}



/// The executable outcome of source resolution.
enum SrcOutX {
    Resolved(Vec<(Rational, usize)>),
    Mismatch(usize),
    Unknown(Vec<String>),
}

/// Resolves every source token against the target family, collecting
/// unresolvable texts, and aborting at the first token that belongs to a
/// different family.  Unknown texts are reported deduplicated.
#[verifier::loop_isolation(false)]
fn resolve_sources_x(catalog: &Catalog, fam: usize, toks: &Vec<(Rational, String)>) -> (r:
    SrcOutX)
    requires
        fam < catalog@.families.len(),
        forall|i: int| 0 <= i < toks@.len() ==> (#[trigger] toks@[i]).0.wf(),
    ensures
        ({
            let sr = resolve_sources(catalog@, fam as int, view_strtoks(toks@));
            match r {
                SrcOutX::Resolved(v) => sr.mismatch is None && sr.unknown.len() == 0
                    && view_toks(v@) == sr.resolved && v@.len() == toks@.len() && forall|i: int|
                    0 <= i < v@.len() ==> (#[trigger] v@[i]).1 < catalog@.families[
                        fam as int
                    ].units.len() && v@[i].0.wf(),
                SrcOutX::Mismatch(mf) => sr.mismatch == Some(mf as int) && mf
                    < catalog@.families.len(),
                SrcOutX::Unknown(texts) => sr.mismatch is None && sr.unknown.len() > 0
                    && view_texts(texts@) == dedup_texts(sr.unknown),
            }
        }),
{
    let ghost c = catalog@;
    let ghost all = view_strtoks(toks@);
    let mut resolved: Vec<(Rational, usize)> = Vec::new();
    let mut unknown: Vec<String> = Vec::new();
    let mut t: usize = 0;
    proof {
        assert(all.skip(0) =~= all);
        assert(view_toks(resolved@) =~= Seq::<(Rat, int)>::empty());
        assert(view_texts(unknown@) =~= Seq::<Seq<char>>::empty());
    }
    while t < toks.len()
        invariant
            t <= toks@.len(),
            resolved@.len() + unknown@.len() == t,
            forall|i: int|
                0 <= i < resolved@.len() ==> (#[trigger] resolved@[i]).1 < c.families[
                    fam as int
                ].units.len() && resolved@[i].0.wf(),
            ({
                let sr = resolve_sources(c, fam as int, all);
                let rest = resolve_sources(c, fam as int, all.skip(t as int));
                &&& (rest.mismatch is None ==> sr.resolved == view_toks(resolved@)
                    + rest.resolved && sr.unknown == view_texts(unknown@) + rest.unknown
                    && sr.mismatch == rest.mismatch)
                &&& (rest.mismatch is Some ==> sr.mismatch == rest.mismatch)
            }),
        decreases toks@.len() - t,
    {
        let value = toks[t].0;
        proof {
            assert(all[t as int] == (toks@[t as int].0@, toks@[t as int].1@));
            assert(all.skip(t as int)[0] == all[t as int]);
            assert(all.skip(t as int).skip(1) =~= all.skip(t + 1));
        }
        match crate::resolve::find_unit(catalog, toks[t].1.as_str(), Some(fam)) {
            Some((_, ui)) => {
                resolved.push((value, ui));
                proof {
                    assert(view_toks(resolved@) =~= view_toks(resolved@.drop_last()).push(
                        (value@, ui as int),
                    ));
                    assert(view_toks(resolved@.drop_last()) + seq![(value@, ui as int)]
                        =~= view_toks(resolved@));
                }
            },
            None => {
                match crate::resolve::find_unit(catalog, toks[t].1.as_str(), None) {
                    Some((f2, _)) => {
                        return SrcOutX::Mismatch(f2);
                    },
                    None => {
                        unknown.push(toks[t].1.clone());
                        proof {
                            assert(view_texts(unknown@) =~= view_texts(unknown@.drop_last())
                                .push(toks@[t as int].1@));
                            assert(view_texts(unknown@.drop_last()) + seq![toks@[t as int].1@]
                                =~= view_texts(unknown@));
                        }
                    },
                }
            },
        }
        t = t + 1;
    }
    proof {
        assert(all.skip(t as int) =~= Seq::<(Rat, Seq<char>)>::empty());
        let sr = resolve_sources(c, fam as int, all);
        assert(sr.resolved =~= view_toks(resolved@));
        assert(sr.unknown =~= view_texts(unknown@));
    }
    if unknown.len() > 0 {
        let d = dedup_x(unknown);
        return SrcOutX::Unknown(d);
    }
    SrcOutX::Resolved(resolved)
}

/// Keeps the first occurrence of each text.
#[verifier::loop_isolation(false)]
fn dedup_x(texts: Vec<String>) -> (r: Vec<String>)
    ensures
        view_texts(r@) == dedup_texts(view_texts(texts@)),
{
    let ghost all = view_texts(texts@);
    let mut out: Vec<String> = Vec::new();
    let mut t: usize = 0;
    proof {
        assert(all.subrange(0, 0) =~= Seq::<Seq<char>>::empty());
        assert(view_texts(out@) =~= dedup_texts(all.subrange(0, 0)));
    }
    while t < texts.len()
        invariant
            t <= texts@.len(),
            view_texts(out@) == dedup_texts(all.subrange(0, t as int)),
        decreases texts@.len() - t,
    {
        let mut seen = false;
        let mut i: usize = 0;
        while i < out.len()
            invariant
                i <= out@.len(),
                seen == exists|q: int|
                    0 <= q < i && view_texts(out@)[q] == texts@[t as int]@,
            decreases out@.len() - i,
        {
            if out[i] == texts[t] {
                proof {
                    assert(view_texts(out@)[i as int] == texts@[t as int]@);
                }
                seen = true;
            }
            i = i + 1;
        }
        proof {
            assert(seen == view_texts(out@).contains(texts@[t as int]@));
            assert(all.subrange(0, t + 1).drop_last() =~= all.subrange(0, t as int));
            assert(all.subrange(0, t + 1).last() == texts@[t as int]@);
        }
        if !seen {
            let item = texts[t].clone();
            out.push(item);
            proof {
                assert(view_texts(out@) =~= view_texts(out@.drop_last()).push(
                    texts@[t as int]@,
                ));
            }
        }
        t = t + 1;
    }
    proof {
        assert(all.subrange(0, t as int) =~= all);
    }
    out
}

/// Builds the output rows of the ratio path.
#[verifier::loop_isolation(false)]
fn build_rows(
    fam_name: &String,
    disp: &String,
    tvs: &Vec<Variant>,
    tgt_abbr: &String,
    totals: &Vec<(String, Rational)>,
    precision: Option<i32>,
) -> (r: Option<Vec<ConversionResult>>)
    requires
        totals_ok(totals@),
        forall|i: int| 0 <= i < tvs@.len() ==> (#[trigger] tvs@[i]).ratio.wf(),
    ensures
        ({
            let spec = totals_rows(
                fam_name@,
                disp@,
                tvs@.map_values(|v: Variant| v@),
                tgt_abbr@,
                view_totals(totals@),
                crate::format::spec_clamp_precision(precision),
                0,
            );
            match r {
                Some(v) => spec == Some(v@.map_values(|x: ConversionResult| x@)),
                None => spec is None,
            }
        }),
{
    let ghost tvars = tvs@.map_values(|v: Variant| v@);
    let ghost tots = view_totals(totals@);
    let ghost prec = crate::format::spec_clamp_precision(precision);
    let many_targets = tvs.len() > 1;
    let multiple = totals.len() > 1;
    let mut out: Vec<ConversionResult> = Vec::new();
    let mut i: usize = 0;
    proof {
        assert(out@.map_values(|x: ConversionResult| x@) =~= Seq::<ConversionResultV>::empty());
    }
    while i < totals.len()
        invariant
            i <= totals@.len(),
            totals_rows(fam_name@, disp@, tvars, tgt_abbr@, tots, prec, 0) is Some <==>
                totals_rows(fam_name@, disp@, tvars, tgt_abbr@, tots, prec, i as int) is Some,
            totals_rows(fam_name@, disp@, tvars, tgt_abbr@, tots, prec, 0) matches Some(whole)
                ==> (totals_rows(fam_name@, disp@, tvars, tgt_abbr@, tots, prec, i as int)
                matches Some(rest) && whole == out@.map_values(|x: ConversionResult| x@) + rest),
        decreases totals@.len() - i,
    {
        let label = &totals[i].0;
        let total = totals[i].1;
        proof {
            assert(tots[i as int] == (totals@[i as int].0@, totals@[i as int].1@));
            assert(totals@[i as int].1.wf());
        }
        let mut j: usize = 0;
        let ghost rows0 = out@.map_values(|x: ConversionResult| x@);
        while j < tvs.len()
            invariant
                j <= tvs@.len(),
                target_rows(fam_name@, disp@, tvars, tgt_abbr@, tots[i as int].0,
                    tots[i as int].1, tots.len() > 1, prec, 0) is Some <==> target_rows(
                    fam_name@,
                    disp@,
                    tvars,
                    tgt_abbr@,
                    tots[i as int].0,
                    tots[i as int].1,
                    tots.len() > 1,
                    prec,
                    j as int,
                ) is Some,
                target_rows(fam_name@, disp@, tvars, tgt_abbr@, tots[i as int].0,
                    tots[i as int].1, tots.len() > 1, prec, 0) matches Some(whole) ==> (
                target_rows(
                    fam_name@,
                    disp@,
                    tvars,
                    tgt_abbr@,
                    tots[i as int].0,
                    tots[i as int].1,
                    tots.len() > 1,
                    prec,
                    j as int,
                ) matches Some(rest) && rows0 + whole == out@.map_values(
                    |x: ConversionResult| x@,
                ) + rest),
            decreases tvs@.len() - j,
        {
            let tv = &tvs[j];
            proof {
                assert(tv@ == tvars[j as int]);
            }
            let q = match total.checked_over(&tv.ratio) {
                Some(x) => x,
                None => {
                    return None;
                },
            };
            let value_str = match crate::format::format_number(&q, precision) {
                Some(s) => s,
                None => {
                    return None;
                },
            };
            let res = ConversionResult {
                family: fam_name.clone(),
                source_display: disp.clone(),
                source_variant: if multiple {
                    Some(label.clone())
                } else {
                    None
                },
                value: value_str,
                target_abbr: tgt_abbr.clone(),
                target_variant: if many_targets {
                    Some(tv.label.clone())
                } else {
                    None
                },
            };
            out.push(res);
            proof {
                assert(out@.map_values(|x: ConversionResult| x@) =~= out@.drop_last().map_values(
                    |x: ConversionResult| x@,
                ).push(out@.last()@));
                assert(out@.last()@ == row(
                    fam_name@,
                    disp@,
                    if tots.len() > 1 {
                        Some(tots[i as int].0)
                    } else {
                        None
                    },
                    crate::rational::spec_format(
                        rat_div(tots[i as int].1, tvars[j as int].ratio),
                        prec as nat,
                    ),
                    tgt_abbr@,
                    if tvars.len() > 1 {
                        Some(tvars[j as int].label)
                    } else {
                        None
                    },
                ));
            }
            j = j + 1;
        }
        proof {
            assert(target_rows(fam_name@, disp@, tvars, tgt_abbr@, tots[i as int].0,
                tots[i as int].1, tots.len() > 1, prec, tvs@.len() as int) == Some(
                Seq::<ConversionResultV>::empty(),
            ));
        }
        i = i + 1;
    }
    proof {
        assert(totals_rows(fam_name@, disp@, tvars, tgt_abbr@, tots, prec, i as int) == Some(
            Seq::<ConversionResultV>::empty(),
        ));
        assert(out@.map_values(|x: ConversionResult| x@) + Seq::<ConversionResultV>::empty()
            =~= out@.map_values(|x: ConversionResult| x@));
    }
    Some(out)
}



/// Runs one conversion: resolves the target unconstrained, rejects compound
/// sources for formula targets, resolves every source within the target's
/// family, and produces one row per source-variant × target-variant
/// combination — or the structured error `spec_convert` assigns to the
/// input.
pub fn convert(
    catalog: &Catalog,
    target_unit_text: &str,
    tokens: &Vec<(Rational, String)>,
    precision: Option<i32>,
) -> (r: Result<Vec<ConversionResult>, ConversionError>)
    requires
        catalog_ok(*catalog),
        tokens@.len() >= 1,
        forall|i: int| 0 <= i < tokens@.len() ==> (#[trigger] tokens@[i]).0.wf(),
    ensures
        ({
            let o = spec_convert(
                catalog@,
                target_unit_text@,
                view_strtoks(tokens@),
                crate::format::spec_clamp_precision(precision),
            );
            match r {
                Ok(v) => o.tag == OutcomeTag::Done && v@.map_values(|x: ConversionResult| x@)
                    == o.results,
                Err(e) => match e {
                    ConversionError::UnknownUnit(ts) => o.tag == OutcomeTag::Unknown
                        && view_texts(ts@) == o.texts,
                    ConversionError::FamilyMismatch(a, b) => o.tag == OutcomeTag::Mismatch
                        && o.texts == seq![a@, b@],
                    ConversionError::FormulaCompound => o.tag == OutcomeTag::Compound,
                    ConversionError::FormulaTransform(t) => o.tag == OutcomeTag::Transform
                        && o.texts == seq![t@],
                    ConversionError::ValueOverflow => o.tag == OutcomeTag::Overflow,
                    _ => false,
                },
            }
        }),
{
    let ghost c = catalog@;
    let ghost toksv = view_strtoks(tokens@);
    let ghost prec = crate::format::spec_clamp_precision(precision);
    let ghost o = spec_convert(c, target_unit_text@, toksv, prec);
    let (tf, tu) = match crate::resolve::find_unit(catalog, target_unit_text, None) {
        Some(p) => p,
        None => {
            let mut ts: Vec<String> = Vec::new();
            ts.push(String::from_str(target_unit_text));
            proof {
                assert(view_texts(ts@) =~= seq![target_unit_text@]);
            }
            return Err(ConversionError::UnknownUnit(ts));
        },
    };
    let tunit = &catalog.families[tf].units[tu];
    proof {
        assert(catalog.families@[tf as int]@ == c.families[tf as int]);
        assert(catalog.families@[tf as int].units@[tu as int]@ == c.families[tf as int].units[
            tu as int
        ]);
    }
    let ghost tuv = c.families[tf as int].units[tu as int];
    let is_formula = match &tunit.conversion {
        Conversion::Formula(_) => true,
        Conversion::Ratios(_) => false,
    };
    if is_formula && tokens.len() > 1 {
        return Err(ConversionError::FormulaCompound);
    }
    let resolved = match resolve_sources_x(catalog, tf, tokens) {
        SrcOutX::Resolved(v) => v,
        SrcOutX::Mismatch(mf) => {
            let a = catalog.families[tf].name.clone();
            let b = catalog.families[mf].name.clone();
            proof {
                assert(catalog.families@[mf as int]@ == c.families[mf as int]);
            }
            return Err(ConversionError::FamilyMismatch(a, b));
        },
        SrcOutX::Unknown(texts) => {
            return Err(ConversionError::UnknownUnit(texts));
        },
    };
    let ghost sr = resolve_sources(c, tf as int, toksv);
    let items = match build_display_items(catalog, tf, &resolved) {
        Some(x) => x,
        None => {
            return Err(ConversionError::ValueOverflow);
        },
    };
    let sorted = sort_display(items);
    let disp_chars = match render_display_x(&sorted) {
        Some(x) => x,
        None => {
            return Err(ConversionError::ValueOverflow);
        },
    };
    let disp = string_from_chars(&disp_chars);
    proof {
        assert(spec_display(c, tf as int, sr.resolved) == Some(disp@));
    }
    match &tunit.conversion {
        Conversion::Formula(ts) => {
            let v0 = resolved[0].0;
            let u0 = resolved[0].1;
            proof {
                assert(view_toks(resolved@)[0] == (resolved@[0].0@, resolved@[0].1 as int));
                assert(catalog.families@[tf as int].units@[u0 as int]@ == c.families[
                    tf as int
                ].units[u0 as int]);
            }
            let sunit = &catalog.families[tf].units[u0];
            match &sunit.conversion {
                Conversion::Ratios(_) => Err(ConversionError::FormulaTransform(
                    sunit.abbr.clone(),
                )),
                Conversion::Formula(ss) => {
                    match apply_formula(*ts, *ss, &v0) {
                        Ok(q) => match crate::format::format_number(&q, precision) {
                            Some(vs) => {
                                let res = ConversionResult {
                                    family: catalog.families[tf].name.clone(),
                                    source_display: disp,
                                    source_variant: None,
                                    value: vs,
                                    target_abbr: tunit.abbr.clone(),
                                    target_variant: None,
                                };
                                let mut out: Vec<ConversionResult> = Vec::new();
                                out.push(res);
                                proof {
                                    assert(out@.map_values(|x: ConversionResult| x@)
                                        =~= o.results);
                                }
                                Ok(out)
                            },
                            None => Err(ConversionError::ValueOverflow),
                        },
                        Err(overflow) => {
                            if overflow {
                                Err(ConversionError::ValueOverflow)
                            } else {
                                Err(ConversionError::FormulaTransform(sunit.abbr.clone()))
                            }
                        },
                    }
                },
            }
        },
        Conversion::Ratios(tvs) => {
            let totals = match accumulate_totals(catalog, tf, &resolved) {
                Some(x) => x,
                None => {
                    return Err(ConversionError::ValueOverflow);
                },
            };
            proof {
                assert(tvs@.map_values(|v: Variant| v@) == tuv.variants);
                assert(forall|i: int|
                    0 <= i < tvs@.len() ==> (#[trigger] tvs@[i]).ratio.wf()) by {
                    assert(unit_ok(catalog.families@[tf as int].units@[tu as int]));
                }
            }
            match build_rows(
                &catalog.families[tf].name,
                &disp,
                tvs,
                &tunit.abbr,
                &totals,
                precision,
            ) {
                Some(rows) => {
                    proof {
                        assert(rows@.map_values(|x: ConversionResult| x@) == o.results);
                    }
                    Ok(rows)
                },
                None => Err(ConversionError::ValueOverflow),
            }
        },
    }
}



/// A `" to "` separator begins at `i`.
pub open spec fn is_to_at(s: Seq<char>, i: int) -> bool {
    &&& 0 <= i
    &&& i + 4 <= s.len()
    &&& s[i] == ' '
    &&& s[i + 1] == 't'
    &&& s[i + 2] == 'o'
    &&& s[i + 3] == ' '
}

/// First `" to "` at or after `i`.
pub open spec fn find_to(s: Seq<char>, i: int) -> Option<int>
    decreases s.len() - i,
    when 0 <= i <= s.len()
{
    if i + 4 > s.len() {
        None
    } else if is_to_at(s, i) {
        Some(i)
    } else {
        find_to(s, i + 1)
    }
}

#[verifier::loop_isolation(false)]
fn find_to_x(v: &Vec<char>, i: usize) -> (r: Option<usize>)
    requires
        i <= v@.len(),
    ensures
        r matches Some(k) ==> find_to(v@, i as int) == Some(k as int) && i <= k && k + 4
            <= v@.len(),
        r is None ==> find_to(v@, i as int) is None,
{
    let n = v.len();
    if n < 4 {
        return None;
    }
    if i > n - 4 {
        return None;
    }
    let mut p = i;
    while p <= n - 4
        invariant
            i <= p,
            p <= n == v@.len(),
            find_to(v@, i as int) == find_to(v@, p as int),
        decreases n - p,
    {
        if v[p] == ' ' && v[p + 1] == 't' && v[p + 2] == 'o' && v[p + 3] == ' ' {
            return Some(p);
        }
        p = p + 1;
    }
    None
}

/// A maybe-signed integer in `i32` range; mirrors what the standard integer
/// parse accepts.
pub open spec fn spec_parse_i32(s: Seq<char>) -> Option<int> {
    let neg = s.len() > 0 && s[0] == '-';
    let signed = s.len() > 0 && (s[0] == '-' || s[0] == '+');
    let body = if signed {
        s.skip(1)
    } else {
        s
    };
    if body.len() >= 1 && crate::tokenize::all_digits(body) {
        let m = crate::tokenize::dec_val(body);
        let v = if neg {
            -m
        } else {
            m
        };
        if -0x80000000 <= v <= 0x7fffffff {
            Some(v)
        } else {
            None
        }
    } else {
        None
    }
}

#[verifier::loop_isolation(false)]
fn parse_i32_x(v: &Vec<char>) -> (r: Option<i32>)
    ensures
        match r {
            Some(x) => spec_parse_i32(v@) == Some(x as int),
            None => spec_parse_i32(v@) is None,
        },
{
    let n = v.len();
    if n == 0 {
        return None;
    }
    let c0 = v[0];
    let neg = c0 == '-';
    let signed = c0 == '-' || c0 == '+';
    let start: usize = if signed {
        1
    } else {
        0
    };
    let ghost body = if signed {
        v@.skip(1)
    } else {
        v@
    };
    proof {
        assert(body =~= v@.subrange(start as int, n as int));
    }
    if n - start < 1 {
        return None;
    }
    let m = match crate::tokenize::digits_val_x(v, start, n) {
        Some(x) => x,
        None => {
            return None;
        },
    };
    if neg {
        if m > 0x80000000i128 {
            return None;
        }
        Some((-m) as i32)
    } else {
        if m > 0x7fffffffi128 {
            return None;
        }
        Some(m as i32)
    }
}

/// How a precision directive is read: `"*"` means the maximum; an integer
/// is clamped with a warning when negative or too high; anything else falls
/// back to the default with a warning.
pub open spec fn spec_precision(t: Seq<char>) -> (int, Option<Seq<char>>) {
    if t =~= seq!['*'] {
        (MAX_PRECISION_I as int, None)
    } else {
        match spec_parse_i32(t) {
            Some(n) => if n < 0 {
                (
                    DEFAULT_PRECISION_I as int,
                    Some(
                        "Can't use negative precision: "@ + t
                            + " (using the default precision of 2 instead)"@,
                    ),
                )
            } else if n > MAX_PRECISION_I as int {
                (
                    MAX_PRECISION_I as int,
                    Some(
                        "Precision too high: "@ + t
                            + " (using the max allowed precision of 14 instead)"@,
                    ),
                )
            } else {
                (n, None)
            },
            None => (
                DEFAULT_PRECISION_I as int,
                Some(
                    "Not a valid precision: "@ + t
                        + " (using the default precision of 2 instead)"@,
                ),
            ),
        }
    }
}

/// Spec copies of the two precision constants.
pub const MAX_PRECISION_I: i32 = 14;

pub const DEFAULT_PRECISION_I: i32 = 2;

/// Reads the precision directive and emits the warning line, if any.
fn parse_precision_x(t: &Vec<char>) -> (r: (i32, Option<String>))
    ensures
        ({
            let (p, w) = spec_precision(t@);
            &&& r.0 as int == p
            &&& 0 <= r.0 <= MAX_PRECISION_I
            &&& (match r.1 {
                Some(s) => w == Some(s@),
                None => w is None,
            })
        }),
{
    if t.len() == 1 && t[0] == '*' {
        proof {
            assert(t@ =~= seq!['*']);
        }
        return (MAX_PRECISION_I, None);
    }
    proof {
        assert(!(t@ =~= seq!['*'])) by {
            if t@.len() == 1 && t@[0] == '*' {
                assert(t@ =~= seq!['*']);
            }
        }
    }
    match parse_i32_x(t) {
        Some(n) => {
            if n < 0 {
                let mut w: Vec<char> = Vec::new();
                crate::text::push_str_chars(&mut w, "Can't use negative precision: ");
                let mut tc = subrange_vec(t);
                w.append(&mut tc);
                crate::text::push_str_chars(&mut w, " (using the default precision of 2 instead)");
                (DEFAULT_PRECISION_I, Some(string_from_chars(&w)))
            } else if n > MAX_PRECISION_I {
                let mut w: Vec<char> = Vec::new();
                crate::text::push_str_chars(&mut w, "Precision too high: ");
                let mut tc = subrange_vec(t);
                w.append(&mut tc);
                crate::text::push_str_chars(
                    &mut w,
                    " (using the max allowed precision of 14 instead)",
                );
                (MAX_PRECISION_I, Some(string_from_chars(&w)))
            } else {
                (n, None)
            }
        },
        None => {
            let mut w: Vec<char> = Vec::new();
            crate::text::push_str_chars(&mut w, "Not a valid precision: ");
            let mut tc = subrange_vec(t);
            w.append(&mut tc);
            crate::text::push_str_chars(&mut w, " (using the default precision of 2 instead)");
            (DEFAULT_PRECISION_I, Some(string_from_chars(&w)))
        },
    }
}

/// A full copy of a character vector.
fn subrange_vec(v: &Vec<char>) -> (r: Vec<char>)
    ensures
        r@ == v@,
{
    let r = crate::text::subrange_chars(v, 0, v.len());
    proof {
        assert(v@.subrange(0, v@.len() as int) =~= v@);
    }
    r
}



/// An optional ` (label)` suffix.
pub open spec fn opt_paren(l: Option<Seq<char>>) -> Seq<char> {
    match l {
        Some(x) => " ("@ + x + ")"@,
        None => Seq::empty(),
    }
}

/// One result row rendered as
/// `[FAMILY] display (source variant) = value abbr (target variant)`.
pub open spec fn render_row(r: ConversionResultV) -> Seq<char> {
    "["@ + r.family + "] "@ + r.source_display + opt_paren(r.source_variant) + " = "@ + r.value
        + " "@ + r.target_abbr + opt_paren(r.target_variant)
}

/// Renders one conversion result as its output line.
pub fn render_result(r: &ConversionResult) -> (s: String)
    ensures
        s@ == render_row(r@),
{
    let mut out: Vec<char> = Vec::new();
    crate::text::push_str_chars(&mut out, "[");
    crate::text::push_str_chars(&mut out, r.family.as_str());
    crate::text::push_str_chars(&mut out, "] ");
    crate::text::push_str_chars(&mut out, r.source_display.as_str());
    match &r.source_variant {
        Some(l) => {
            crate::text::push_str_chars(&mut out, " (");
            crate::text::push_str_chars(&mut out, l.as_str());
            crate::text::push_str_chars(&mut out, ")");
        },
        None => {},
    }
    crate::text::push_str_chars(&mut out, " = ");
    crate::text::push_str_chars(&mut out, r.value.as_str());
    crate::text::push_str_chars(&mut out, " ");
    crate::text::push_str_chars(&mut out, r.target_abbr.as_str());
    match &r.target_variant {
        Some(l) => {
            crate::text::push_str_chars(&mut out, " (");
            crate::text::push_str_chars(&mut out, l.as_str());
            crate::text::push_str_chars(&mut out, ")");
        },
        None => {},
    }
    proof {
        assert(out@ =~= render_row(r@));
    }
    string_from_chars(&out)
}

/// The error line for one unknown unit text.
pub open spec fn unknown_line(t: Seq<char>) -> Seq<char> {
    "[ Unknown unit: "@ + t + " ]"@
}

/// The lines an erroneous outcome prints.
pub open spec fn spec_error_lines(tag: OutcomeTag, texts: Seq<Seq<char>>) -> Seq<Seq<char>> {
    match tag {
        OutcomeTag::Unknown => texts.map_values(|t: Seq<char>| unknown_line(t)),
        OutcomeTag::Mismatch => seq![
            "[ Unit type mismatch: mixed '"@ + texts[0] + "' with '"@ + texts[1] + "' ]"@,
        ],
        OutcomeTag::Compound => seq![
            "[ Formula based conversions cannot be used with compound/mixed units ]"@,
        ],
        OutcomeTag::Transform => seq!["[ Formula error: "@ + texts[0] + " ]"@],
        OutcomeTag::Overflow => seq!["[ Value out of range ]"@],
        OutcomeTag::Done => Seq::empty(),
    }
}

/// Renders a conversion error as its output lines; the separator and parse
/// failures render as no lines — the caller shows its usage text instead.
pub fn error_lines(e: &ConversionError) -> (r: Vec<String>)
    ensures
        view_texts(r@) == (match e {
            ConversionError::UnknownUnit(ts) => view_texts(ts@).map_values(
                |t: Seq<char>| unknown_line(t),
            ),
            ConversionError::FamilyMismatch(a, b) => spec_error_lines(
                OutcomeTag::Mismatch,
                seq![a@, b@],
            ),
            ConversionError::FormulaCompound => spec_error_lines(
                OutcomeTag::Compound,
                Seq::empty(),
            ),
            ConversionError::FormulaTransform(t) => spec_error_lines(
                OutcomeTag::Transform,
                seq![t@],
            ),
            ConversionError::ValueOverflow => spec_error_lines(
                OutcomeTag::Overflow,
                Seq::empty(),
            ),
            ConversionError::NoSeparator => Seq::empty(),
            ConversionError::Parse => Seq::empty(),
        }),
{
    let mut out: Vec<String> = Vec::new();
    match e {
        ConversionError::UnknownUnit(ts) => {
            let ghost goal = view_texts(ts@).map_values(|t: Seq<char>| unknown_line(t));
            let mut i: usize = 0;
            while i < ts.len()
                invariant
                    i <= ts@.len(),
                    out@.len() == i,
                    goal == view_texts(ts@).map_values(|t: Seq<char>| unknown_line(t)),
                    forall|q: int| 0 <= q < i ==> (#[trigger] out@[q])@ == goal[q],
                decreases ts@.len() - i,
            {
                let mut line: Vec<char> = Vec::new();
                crate::text::push_str_chars(&mut line, "[ Unknown unit: ");
                crate::text::push_str_chars(&mut line, ts[i].as_str());
                crate::text::push_str_chars(&mut line, " ]");
                proof {
                    assert(goal[i as int] == unknown_line(view_texts(ts@)[i as int]));
                    assert(line@ =~= goal[i as int]);
                }
                out.push(string_from_chars(&line));
                i = i + 1;
            }
            proof {
                assert(view_texts(out@) =~= goal);
            }
        },
        ConversionError::FamilyMismatch(a, b) => {
            let mut line: Vec<char> = Vec::new();
            crate::text::push_str_chars(&mut line, "[ Unit type mismatch: mixed '");
            crate::text::push_str_chars(&mut line, a.as_str());
            crate::text::push_str_chars(&mut line, "' with '");
            crate::text::push_str_chars(&mut line, b.as_str());
            crate::text::push_str_chars(&mut line, "' ]");
            out.push(string_from_chars(&line));
            proof {
                assert(view_texts(out@) =~= spec_error_lines(OutcomeTag::Mismatch, seq![a@, b@]));
            }
        },
        ConversionError::FormulaCompound => {
            out.push(
                String::from_str(
                    "[ Formula based conversions cannot be used with compound/mixed units ]",
                ),
            );
            proof {
                assert(view_texts(out@) =~= spec_error_lines(
                    OutcomeTag::Compound,
                    Seq::empty(),
                ));
            }
        },
        ConversionError::FormulaTransform(t) => {
            let mut line: Vec<char> = Vec::new();
            crate::text::push_str_chars(&mut line, "[ Formula error: ");
            crate::text::push_str_chars(&mut line, t.as_str());
            crate::text::push_str_chars(&mut line, " ]");
            out.push(string_from_chars(&line));
            proof {
                assert(view_texts(out@) =~= spec_error_lines(OutcomeTag::Transform, seq![t@]));
            }
        },
        ConversionError::ValueOverflow => {
            out.push(String::from_str("[ Value out of range ]"));
            proof {
                assert(view_texts(out@) =~= spec_error_lines(
                    OutcomeTag::Overflow,
                    Seq::empty(),
                ));
            }
        },
        ConversionError::NoSeparator => {
            proof {
                assert(view_texts(out@) =~= Seq::<Seq<char>>::empty());
            }
        },
        ConversionError::Parse => {
            proof {
                assert(view_texts(out@) =~= Seq::<Seq<char>>::empty());
            }
        },
    }
    out
}

/// The parsed tokens of all scanned pairs, or `None` when one pair has no
/// readable value.
pub open spec fn parse_pairs(left: Seq<char>, pairs: Seq<(int, int)>, i: int) -> Option<
    Seq<(Rat, Seq<char>)>,
>
    decreases pairs.len() - i,
    when 0 <= i <= pairs.len()
{
    if i >= pairs.len() {
        Some(Seq::empty())
    } else {
        match crate::tokenize::spec_parse_value_unit(
            left.subrange(pairs[i].0, pairs[i].1),
        ) {
            None => None,
            Some(p) => match parse_pairs(left, pairs, i + 1) {
                Some(rest) => Some(seq![(p.0, p.1)] + rest),
                None => None,
            },
        }
    }
}

pub ghost struct LineOut {
    pub lines: Seq<Seq<char>>,
    pub usage: bool,
}

/// The whole command at the model level: separator search, the optional
/// precision directive with its warning, tokenization, and the engine; a
/// missing separator, an empty token list or an unreadable value asks the
/// caller to show usage.
pub open spec fn spec_convert_line(cat: CatalogV, s: Seq<char>) -> LineOut {
    if find_char(s, '=', 0) is None && find_to(s, 0) is None {
        LineOut { lines: Seq::empty(), usage: true }
    } else {
        let parts = if find_char(s, '=', 0) is Some {
            let k = find_char(s, '=', 0)->Some_0;
            if find_char(s, '=', k + 1) is Some {
                None
            } else {
                Some((s.subrange(0, k), s.subrange(k + 1, s.len() as int)))
            }
        } else {
            let k = find_to(s, 0)->Some_0;
            if find_to(s, k + 4) is Some {
                None
            } else {
                Some((s.subrange(0, k), s.subrange(k + 4, s.len() as int)))
            }
        };
        match parts {
            None => LineOut { lines: Seq::empty(), usage: false },
            Some(lr) => {
                let left = crate::tokenize::spec_trim(lr.0);
                let right = crate::tokenize::spec_trim(lr.1);
                let tpw = match find_char(right, ':', 0) {
                    Some(k) => {
                        let tt = crate::tokenize::spec_trim(right.subrange(0, k));
                        let pt_end = match find_char(right, ':', k + 1) {
                            Some(k2) => k2,
                            None => right.len() as int,
                        };
                        let pt = crate::tokenize::spec_trim(right.subrange(k + 1, pt_end));
                        let pw = spec_precision(pt);
                        (tt, pw.0, pw.1)
                    },
                    None => (right, DEFAULT_PRECISION_I as int, None::<Seq<char>>),
                };
                let warn_lines = match tpw.2 {
                    Some(w) => seq![w],
                    None => Seq::<Seq<char>>::empty(),
                };
                let pairs = crate::tokenize::scan_pairs(left, 0);
                if pairs.len() == 0 {
                    LineOut { lines: warn_lines, usage: true }
                } else {
                    match parse_pairs(left, pairs, 0) {
                        None => LineOut { lines: warn_lines, usage: true },
                        Some(toks) => {
                            let o = spec_convert(cat, tpw.0, toks, tpw.1);
                            if o.tag == OutcomeTag::Done {
                                LineOut {
                                    lines: warn_lines + o.results.map_values(
                                        |x: ConversionResultV| render_row(x),
                                    ),
                                    usage: false,
                                }
                            } else {
                                LineOut {
                                    lines: warn_lines + spec_error_lines(o.tag, o.texts),
                                    usage: false,
                                }
                            }
                        },
                    }
                }
            },
        }
    }
}

/// Runs one whole input line against the catalog.  Returns the output lines
/// (a possible precision warning first, then result or error lines) and a
/// flag asking the caller to show its usage text.
#[verifier::loop_isolation(false)]
#[verifier::rlimit(100)]
#[verifier::spinoff_prover]
pub fn convert_line(catalog: &Catalog, input: &str) -> (r: (Vec<String>, bool))
    requires
        catalog_ok(*catalog),
    ensures
        ({
            let lo = spec_convert_line(catalog@, input@);
            view_texts(r.0@) == lo.lines && r.1 == lo.usage
        }),
{
    let ghost c = catalog@;
    let s = crate::text::str_to_chars(input);
    let eq_pos = crate::tokenize::find_char_x(&s, '=', 0);
    let to_pos = find_to_x(&s, 0);
    let (l0, r0): (Vec<char>, Vec<char>) = match (eq_pos, to_pos) {
        (Some(k), _) => {
            match crate::tokenize::find_char_x(&s, '=', k + 1) {
                Some(_) => {
                    return (Vec::new(), false);
                },
                None => {
                    proof {
                        crate::tokenize::lemma_find_char_bounds(s@, '=', 0);
                    }
                    (
                        crate::text::subrange_chars(&s, 0, k),
                        crate::text::subrange_chars(&s, k + 1, s.len()),
                    )
                },
            }
        },
        (None, Some(k)) => {
            match find_to_x(&s, k + 4) {
                Some(_) => {
                    return (Vec::new(), false);
                },
                None => (
                    crate::text::subrange_chars(&s, 0, k),
                    crate::text::subrange_chars(&s, k + 4, s.len()),
                ),
            }
        },
        (None, None) => {
            return (Vec::new(), true);
        },
    };
    let left = crate::tokenize::trim_chars(&l0);
    let right = crate::tokenize::trim_chars(&r0);
    let (target_chars, prec, warn): (Vec<char>, i32, Option<String>) = match crate::tokenize::find_char_x(
        &right,
        ':',
        0,
    ) {
        Some(k) => {
            let rn = right.len();
            let tt = crate::tokenize::trim_chars(&crate::text::subrange_chars(&right, 0, k));
            let pt_end = match crate::tokenize::find_char_x(&right, ':', k + 1) {
                Some(k2) => k2,
                None => right.len(),
            };
            proof {
                crate::tokenize::lemma_find_char_bounds(right@, ':', k + 1);
            }
            let pt = crate::tokenize::trim_chars(
                &crate::text::subrange_chars(&right, k + 1, pt_end),
            );
            let (p, w) = parse_precision_x(&pt);
            (tt, p, w)
        },
        None => {
            let rcopy = subrange_vec(&right);
            (rcopy, DEFAULT_PRECISION_I, None)
        },
    };
    let mut lines: Vec<String> = Vec::new();
    let ghost warn_lines = match warn {
        Some(ref w) => seq![w@],
        None => Seq::<Seq<char>>::empty(),
    };
    match warn {
        Some(w) => {
            lines.push(w);
            proof {
                assert(view_texts(lines@) =~= warn_lines);
            }
        },
        None => {
            proof {
                assert(view_texts(lines@) =~= warn_lines);
            }
        },
    }
    let pairs = crate::tokenize::scan_pairs_x(&left);
    if pairs.len() == 0 {
        proof {
            assert(crate::tokenize::scan_pairs(left@, 0).len() == 0);
        }
        return (lines, true);
    }
    let ghost pairsv = pairs@.map_values(|p: (usize, usize)| (p.0 as int, p.1 as int));
    let mut tokens: Vec<(Rational, String)> = Vec::new();
    let mut i: usize = 0;
    proof {
        assert(parse_pairs(left@, pairsv, 0) is Some ==> parse_pairs(left@, pairsv, 0)->Some_0
            =~= view_strtoks(tokens@) + parse_pairs(left@, pairsv, 0)->Some_0);
    }
    while i < pairs.len()
        invariant
            i <= pairs@.len(),
            pairsv == pairs@.map_values(|p: (usize, usize)| (p.0 as int, p.1 as int)),
            forall|q: int| 0 <= q < tokens@.len() ==> (#[trigger] tokens@[q]).0.wf(),
            tokens@.len() == i,
            parse_pairs(left@, pairsv, 0) is Some <==> parse_pairs(left@, pairsv, i as int)
                is Some,
            parse_pairs(left@, pairsv, 0) matches Some(whole) ==> (parse_pairs(
                left@,
                pairsv,
                i as int,
            ) matches Some(rest) && whole == view_strtoks(tokens@) + rest),
        decreases pairs@.len() - i,
    {
        let (p0, p1) = (pairs[i].0, pairs[i].1);
        proof {
            assert(pairsv[i as int] == (pairs@[i as int].0 as int, pairs@[i as int].1 as int));
        }
        let sub = crate::text::subrange_chars(&left, p0, p1);
        match crate::tokenize::parse_value_unit_chars(&sub) {
            Some((val, unit_chars)) => {
                let unit = string_from_chars(&unit_chars);
                tokens.push((val, unit));
                proof {
                    assert(view_strtoks(tokens@) =~= view_strtoks(tokens@.drop_last()).push(
                        (tokens@.last().0@, tokens@.last().1@),
                    ));
                    assert(view_strtoks(tokens@.drop_last()) + seq![
                        (tokens@.last().0@, tokens@.last().1@),
                    ] =~= view_strtoks(tokens@));
                }
            },
            None => {
                proof {
                    assert(parse_pairs(left@, pairsv, i as int) is None);
                }
                return (lines, true);
            },
        }
        i = i + 1;
    }
    proof {
        assert(parse_pairs(left@, pairsv, i as int) == Some(Seq::<(Rat, Seq<char>)>::empty()));
        assert(view_strtoks(tokens@) + Seq::<(Rat, Seq<char>)>::empty() =~= view_strtoks(
            tokens@,
        ));
    }
    let target_text = string_from_chars(&target_chars);
    proof {
        assert(crate::format::spec_clamp_precision(Some(prec)) == prec as int);
    }
    match convert(catalog, target_text.as_str(), &tokens, Some(prec)) {
        Ok(results) => {
            let ghost o = spec_convert(c, target_text@, view_strtoks(tokens@), prec as int);
            let ghost wn = warn_lines.len();
            let ghost goal = o.results.map_values(|x: ConversionResultV| render_row(x));
            let mut k: usize = 0;
            while k < results.len()
                invariant
                    k <= results@.len(),
                    lines@.len() == wn + k,
                    forall|q: int| 0 <= q < wn ==> (#[trigger] lines@[q])@ == warn_lines[q],
                    forall|q: int|
                        0 <= q < k ==> (#[trigger] lines@[wn + q])@ == render_row(
                            results@[q]@,
                        ),
                decreases results@.len() - k,
            {
                lines.push(render_result(&results[k]));
                k = k + 1;
            }
            proof {
                assert(results@.map_values(|x: ConversionResult| x@) == o.results);
                assert forall|q: int| 0 <= q < goal.len() implies goal[q] == render_row(
                    results@[q]@,
                ) by {
                    assert(o.results[q] == results@[q]@);
                }
                assert forall|q: int|
                    0 <= q < lines@.len() implies (#[trigger] view_texts(lines@)[q]) == (
                    warn_lines + goal)[q] by {
                    if q < wn {
                        assert(lines@[q]@ == warn_lines[q]);
                    } else {
                        let q2 = q - wn;
                        assert(lines@[wn + q2]@ == render_row(results@[q2]@));
                        assert(goal[q2] == render_row(results@[q2]@));
                    }
                }
                assert(view_texts(lines@) =~= warn_lines + goal);
            }
            (lines, false)
        },
        Err(e) => {
            let elines = error_lines(&e);
            let ghost elv = view_texts(elines@);
            let ghost wn = warn_lines.len();
            let mut k: usize = 0;
            while k < elines.len()
                invariant
                    k <= elines@.len(),
                    elv == view_texts(elines@),
                    lines@.len() == wn + k,
                    forall|q: int| 0 <= q < wn ==> (#[trigger] lines@[q])@ == warn_lines[q],
                    forall|q: int| 0 <= q < k ==> (#[trigger] lines@[wn + q])@ == elv[q],
                decreases elines@.len() - k,
            {
                let line = elines[k].clone();
                lines.push(line);
                proof {
                    assert(lines@[wn + k]@ == elines@[k as int]@);
                }
                k = k + 1;
            }
            proof {
                assert forall|q: int|
                    0 <= q < lines@.len() implies (#[trigger] view_texts(lines@)[q]) == (
                    warn_lines + elv)[q] by {
                    if q < wn {
                        assert(lines@[q]@ == warn_lines[q]);
                    } else {
                        let q2 = q - wn;
                        assert(lines@[wn + q2]@ == elv[q2]);
                    }
                }
                assert(view_texts(lines@) =~= warn_lines + elv);
            }
            (lines, false)
        },
    }
}


} // verus!
