//! Unit-name resolution: maps free text to a `(family, unit)` pair of the
//! catalog under a fixed precedence policy.  Within the searched scope an
//! exact, case-sensitive pass over every abbreviation runs to completion
//! first (so `"B"` finds bytes while `"b"` finds bits); only then comes, per
//! family, a case-insensitive pass over abbreviations and after it one over
//! aliases.

use vstd::prelude::*;
use crate::catalog::{Catalog, CatalogV, UnitV};
use crate::text::{chars_eq_str, chars_eq_str_ci, lower_seq, str_to_chars};

verus! {

/// The family filter: `None` searches the whole catalog, `Some(f)` only
/// family `f`.
pub open spec fn in_scope(constraint: Option<int>, f: int) -> bool {
    match constraint {
        None => true,
        Some(cf) => f == cf,
    }
}

pub open spec fn opt_int(o: Option<usize>) -> Option<int> {
    match o {
        Some(f) => Some(f as int),
        None => None,
    }
}

/// First unit at or after `i` whose abbreviation equals `text` exactly.
pub open spec fn find_exact_in_family(units: Seq<UnitV>, text: Seq<char>, i: int) -> Option<int>
    decreases units.len() - i,
{
    if i < 0 || i >= units.len() {
        None
    } else if units[i].abbr == text {
        Some(i)
    } else {
        find_exact_in_family(units, text, i + 1)
    }
}

/// First unit at or after `i` whose abbreviation matches `lt` case
/// insensitively (`lt` is already lowercased).
pub open spec fn find_ci_abbr_in_family(units: Seq<UnitV>, lt: Seq<char>, i: int) -> Option<int>
    decreases units.len() - i,
{
    if i < 0 || i >= units.len() {
        None
    } else if lower_seq(units[i].abbr) == lt {
        Some(i)
    } else {
        find_ci_abbr_in_family(units, lt, i + 1)
    }
}

/// The unit carries some alias matching `lt` case insensitively.
pub open spec fn unit_has_alias(u: UnitV, lt: Seq<char>) -> bool {
    exists|j: int| 0 <= j < u.aliases.len() && lower_seq(#[trigger] u.aliases[j]) == lt
}

/// First unit at or after `i` with a matching alias.
pub open spec fn find_alias_in_family(units: Seq<UnitV>, lt: Seq<char>, i: int) -> Option<int>
    decreases units.len() - i,
{
    if i < 0 || i >= units.len() {
        None
    } else if unit_has_alias(units[i], lt) {
        Some(i)
    } else {
        find_alias_in_family(units, lt, i + 1)
    }
}

/// The cross-cutting exact pass: in catalog order, over every family in
/// scope, the first exact abbreviation match.
pub open spec fn find_exact(
    c: CatalogV,
    text: Seq<char>,
    constraint: Option<int>,
    f: int,
) -> Option<(int, int)>
    decreases c.families.len() - f,
{
    if f < 0 || f >= c.families.len() {
        None
    } else if !in_scope(constraint, f) {
        find_exact(c, text, constraint, f + 1)
    } else {
        match find_exact_in_family(c.families[f].units, text, 0) {
            Some(u) => Some((f, u)),
            None => find_exact(c, text, constraint, f + 1),
        }
    }
}

/// The case-insensitive pass: per family in scope, first over every
/// abbreviation, then over every alias.
pub open spec fn find_ci(
    c: CatalogV,
    lt: Seq<char>,
    constraint: Option<int>,
    f: int,
) -> Option<(int, int)>
    decreases c.families.len() - f,
{
    if f < 0 || f >= c.families.len() {
        None
    } else if !in_scope(constraint, f) {
        find_ci(c, lt, constraint, f + 1)
    } else {
        match find_ci_abbr_in_family(c.families[f].units, lt, 0) {
            Some(u) => Some((f, u)),
            None => match find_alias_in_family(c.families[f].units, lt, 0) {
                Some(u) => Some((f, u)),
                None => find_ci(c, lt, constraint, f + 1),
            },
        }
    }
}

/// The whole resolution policy: the exact pass over the scope runs to
/// completion before any case-insensitive matching is tried.
pub open spec fn spec_resolve(
    c: CatalogV,
    text: Seq<char>,
    constraint: Option<int>,
) -> Option<(int, int)> {
    match find_exact(c, text, constraint, 0) {
        Some(r) => Some(r),
        None => find_ci(c, lower_seq(text), constraint, 0),
    }
}

/// Resolves unit text to a `(family index, unit index)` pair, or `None` when
/// no step of the policy matches within the scope.
#[verifier::loop_isolation(false)]
pub fn find_unit(catalog: &Catalog, unit_str: &str, family: Option<usize>) -> (r: Option<
    (usize, usize),
>)
    ensures
        opt_pair_int(r) == spec_resolve(catalog@, unit_str@, opt_int(family)),
        r matches Some(p) ==> p.0 < catalog@.families.len() && p.1 < catalog@.families[
            p.0 as int
        ].units.len(),
        r matches Some(p) ==> (family is Some ==> p.0 == family->Some_0),
{
    let text = str_to_chars(unit_str);
    let ghost c = catalog@;
    let ghost cons = opt_int(family);
    let nf = catalog.families.len();
    proof {
        assert(c.families.len() == nf);
    }
    // exact, case-sensitive pass over the whole scope
    let mut f: usize = 0;
    while f < nf
        invariant
            f <= nf,
            nf == c.families.len(),
            c == catalog@,
            text@ == unit_str@,
            cons == opt_int(family),
            find_exact(c, text@, cons, 0) == find_exact(c, text@, cons, f as int),
        decreases nf - f,
    {
        let scope_ok = match family {
            Some(cf) => cf == f,
            None => true,
        };
        proof {
            assert(scope_ok == in_scope(cons, f as int));
        }
        if scope_ok {
            let fam = &catalog.families[f];
            let nu = fam.units.len();
            proof {
                assert(fam@ == c.families[f as int]);
            }
            let mut u: usize = 0;
            while u < nu
                invariant
                    u <= nu,
                    nu == c.families[f as int].units.len(),
                    f < nf == c.families.len(),
                    c == catalog@,
                    text@ == unit_str@,
                    cons == opt_int(family),
                    in_scope(cons, f as int),
                    fam@ == c.families[f as int],
                    find_exact_in_family(c.families[f as int].units, text@, 0)
                        == find_exact_in_family(c.families[f as int].units, text@, u as int),
                decreases nu - u,
            {
                proof {
                    assert(fam.units@[u as int]@ == c.families[f as int].units[u as int]);
                }
                if chars_eq_str(&text, fam.units[u].abbr.as_str()) {
                    proof {
                        assert(find_exact_in_family(c.families[f as int].units, text@, u as int)
                            == Some(u as int));
                        assert(find_exact_in_family(c.families[f as int].units, text@, 0)
                            == Some(u as int));
                        assert(in_scope(cons, f as int));
                        assert(find_exact(c, text@, cons, f as int) == Some((f as int, u as int)));
                    }
                    return Some((f, u));
                }
                u = u + 1;
            }
            proof {
                assert(find_exact_in_family(c.families[f as int].units, text@, nu as int)
                    is None);
            }
        }
        proof {
            assert(find_exact(c, text@, cons, f as int) == find_exact(c, text@, cons, f + 1));
        }
        f = f + 1;
    }
    proof {
        assert(find_exact(c, text@, cons, 0) is None);
    }
    // case-insensitive pass: per family, abbreviations first, then aliases
    let ghost lt = lower_seq(text@);
    let mut f: usize = 0;
    while f < nf
        invariant
            f <= nf,
            nf == c.families.len(),
            c == catalog@,
            text@ == unit_str@,
            lt == lower_seq(text@),
            cons == opt_int(family),
            find_exact(c, text@, cons, 0) is None,
            find_ci(c, lt, cons, 0) == find_ci(c, lt, cons, f as int),
        decreases nf - f,
    {
        let scope_ok = match family {
            Some(cf) => cf == f,
            None => true,
        };
        if scope_ok {
            let fam = &catalog.families[f];
            let nu = fam.units.len();
            proof {
                assert(fam@ == c.families[f as int]);
            }
            let mut u: usize = 0;
            while u < nu
                invariant
                    u <= nu,
                    nu == c.families[f as int].units.len(),
                    f < nf == c.families.len(),
                    c == catalog@,
                    text@ == unit_str@,
                    lt == lower_seq(text@),
                    fam@ == c.families[f as int],
                    find_ci_abbr_in_family(c.families[f as int].units, lt, 0)
                        == find_ci_abbr_in_family(c.families[f as int].units, lt, u as int),
                decreases nu - u,
            {
                proof {
                    assert(fam.units@[u as int]@ == c.families[f as int].units[u as int]);
                }
                if chars_eq_str_ci(&text, fam.units[u].abbr.as_str()) {
                    proof {
                        assert(find_ci_abbr_in_family(c.families[f as int].units, lt, u as int)
                            == Some(u as int));
                        assert(find_ci(c, lt, cons, f as int) == Some((f as int, u as int)));
                    }
                    return Some((f, u));
                }
                u = u + 1;
            }
            proof {
                assert(find_ci_abbr_in_family(c.families[f as int].units, lt, nu as int) is None);
            }
            let mut u: usize = 0;
            while u < nu
                invariant
                    u <= nu,
                    nu == c.families[f as int].units.len(),
                    f < nf == c.families.len(),
                    c == catalog@,
                    text@ == unit_str@,
                    lt == lower_seq(text@),
                    fam@ == c.families[f as int],
                    find_ci_abbr_in_family(c.families[f as int].units, lt, 0) is None,
                    find_alias_in_family(c.families[f as int].units, lt, 0)
                        == find_alias_in_family(c.families[f as int].units, lt, u as int),
                decreases nu - u,
            {
                proof {
                    assert(fam.units@[u as int]@ == c.families[f as int].units[u as int]);
                }
                let unit = &fam.units[u];
                let na = unit.aliases.len();
                proof {
                    assert(unit@ == c.families[f as int].units[u as int]);
                    assert(na == unit@.aliases.len());
                }
                let mut j: usize = 0;
                while j < na
                    invariant
                        j <= na,
                        na == unit@.aliases.len(),
                        unit@ == c.families[f as int].units[u as int],
                        text@ == unit_str@,
                        lt == lower_seq(text@),
                        forall|jj: int|
                            0 <= jj < j ==> lower_seq(#[trigger] unit@.aliases[jj]) != lt,
                    decreases na - j,
                {
                    proof {
                        assert(unit.aliases.deep_view()[j as int] == unit.aliases@[j as int]@);
                    }
                    if chars_eq_str_ci(&text, unit.aliases[j].as_str()) {
                        proof {
                            assert(lower_seq(unit@.aliases[j as int]) == lt);
                            assert(unit_has_alias(unit@, lt));
                            assert(find_alias_in_family(c.families[f as int].units, lt, u as int)
                                == Some(u as int));
                            assert(find_ci(c, lt, cons, f as int) == Some((f as int, u as int)));
                        }
                        return Some((f, u));
                    }
                    j = j + 1;
                }
                proof {
                    assert(!unit_has_alias(unit@, lt));
                    assert(find_alias_in_family(c.families[f as int].units, lt, u as int)
                        == find_alias_in_family(c.families[f as int].units, lt, u + 1));
                }
                u = u + 1;
            }
            proof {
                assert(find_alias_in_family(c.families[f as int].units, lt, nu as int) is None);
            }
        }
        proof {
            assert(find_ci(c, lt, cons, f as int) == find_ci(c, lt, cons, f + 1));
        }
        f = f + 1;
    }
    proof {
        assert(find_ci(c, lt, cons, 0) is None);
    }
    None
}

pub open spec fn opt_pair_int(r: Option<(usize, usize)>) -> Option<(int, int)> {
    match r {
        Some(p) => Some((p.0 as int, p.1 as int)),
        None => None,
    }
}

} // verus!
