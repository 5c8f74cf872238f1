//! The unit catalog: families of unit definitions, each with a display name,
//! a canonical abbreviation, case-insensitive aliases, and either a list of
//! regional ratio variants or a temperature scale converted by formula.

use vstd::prelude::*;
use crate::rational::{Rat, Rational, rat_wf, rat_make, pow10};

verus! {

broadcast use vstd::string::group_string_axioms;

/// The temperature scales, the only units converted by formula.
#[derive(Clone, Copy, PartialEq, Eq, Structural, Debug)]
pub enum Scale {
    Kelvin,
    Celsius,
    Fahrenheit,
}

/// One regional definition of a ratio-based unit: how many base units one
/// unit of this variant holds.
pub struct Variant {
    pub label: String,
    pub ratio: Rational,
}

/// A unit converts either linearly, through one ratio per regional variant,
/// or by a pairwise temperature formula.
pub enum Conversion {
    Ratios(Vec<Variant>),
    Formula(Scale),
}

/// One unit definition.
pub struct Unit {
    pub name: String,
    pub abbr: String,
    pub aliases: Vec<String>,
    pub conversion: Conversion,
}

/// A named group of mutually convertible units.
pub struct Family {
    pub name: String,
    pub units: Vec<Unit>,
}

/// The whole table, in declaration order.
pub struct Catalog {
    pub families: Vec<Family>,
}

pub ghost struct VariantV {
    pub label: Seq<char>,
    pub ratio: Rat,
}

pub ghost struct UnitV {
    pub name: Seq<char>,
    pub abbr: Seq<char>,
    pub aliases: Seq<Seq<char>>,
    pub formula: Option<Scale>,
    pub variants: Seq<VariantV>,
}

pub ghost struct FamilyV {
    pub name: Seq<char>,
    pub units: Seq<UnitV>,
}

pub ghost struct CatalogV {
    pub families: Seq<FamilyV>,
}

impl View for Variant {
    type V = VariantV;

    open spec fn view(&self) -> VariantV {
        VariantV { label: self.label@, ratio: self.ratio@ }
    }
}

impl View for Unit {
    type V = UnitV;

    open spec fn view(&self) -> UnitV {
        UnitV {
            name: self.name@,
            abbr: self.abbr@,
            aliases: self.aliases.deep_view(),
            formula: match self.conversion {
                Conversion::Formula(s) => Some(s),
                Conversion::Ratios(_) => None,
            },
            variants: match self.conversion {
                Conversion::Formula(_) => Seq::empty(),
                Conversion::Ratios(vs) => vs@.map_values(|v: Variant| v@),
            },
        }
    }
}

impl View for Family {
    type V = FamilyV;

    open spec fn view(&self) -> FamilyV {
        FamilyV { name: self.name@, units: self.units@.map_values(|u: Unit| u@) }
    }
}

impl View for Catalog {
    type V = CatalogV;

    open spec fn view(&self) -> CatalogV {
        CatalogV { families: self.families@.map_values(|f: Family| f@) }
    }
}

/// A variant carries a positive, well-formed ratio.
pub open spec fn variant_wf(v: VariantV) -> bool {
    rat_wf(v.ratio) && v.ratio.n > 0
}

/// A unit either has a formula and no ratios, or at least one well-formed
/// ratio variant with pairwise distinct labels — never both, never neither.
pub open spec fn unit_wf(u: UnitV) -> bool {
    match u.formula {
        Some(_) => u.variants.len() == 0,
        None => {
            &&& u.variants.len() >= 1
            &&& forall|i: int| 0 <= i < u.variants.len() ==> variant_wf(#[trigger] u.variants[i])
            &&& forall|i: int, j: int|
                0 <= i < j < u.variants.len() ==> (#[trigger] u.variants[i]).label != (
                #[trigger] u.variants[j]).label
        },
    }
}

pub open spec fn family_wf(f: FamilyV) -> bool {
    forall|i: int| 0 <= i < f.units.len() ==> unit_wf(#[trigger] f.units[i])
}

pub open spec fn catalog_wf(c: CatalogV) -> bool {
    forall|i: int| 0 <= i < c.families.len() ==> family_wf(#[trigger] c.families[i])
}

/// Representation-level companion of `unit_wf`: the stored ratios satisfy
/// the `Rational` invariant, so the engine may compute with them.
pub open spec fn unit_ok(u: Unit) -> bool {
    match u.conversion {
        Conversion::Ratios(vs) => forall|i: int|
            0 <= i < vs@.len() ==> (#[trigger] vs@[i]).ratio.wf(),
        Conversion::Formula(_) => true,
    }
}

pub open spec fn family_ok(f: Family) -> bool {
    forall|i: int| 0 <= i < f.units@.len() ==> unit_ok(#[trigger] f.units@[i])
}

pub open spec fn catalog_ok(c: Catalog) -> bool {
    forall|i: int| 0 <= i < c.families@.len() ==> family_ok(#[trigger] c.families@[i])
}

/// Model of a unit with a single, unlabeled ratio `mant / 10^scale`.
pub open spec fn ratio_unit_v(
    name: Seq<char>,
    abbr: Seq<char>,
    aliases: Seq<Seq<char>>,
    mant: int,
    scale: nat,
) -> UnitV {
    UnitV {
        name,
        abbr,
        aliases,
        formula: None,
        variants: seq![
            VariantV { label: ""@, ratio: rat_make(mant, pow10(scale) as int) },
        ],
    }
}

/// Model of one labeled ratio variant `mant / 10^scale`.
pub open spec fn variant_v(label: Seq<char>, mant: int, scale: nat) -> VariantV {
    VariantV { label, ratio: rat_make(mant, pow10(scale) as int) }
}

/// Model of a unit with several regional ratio variants.
pub open spec fn multi_unit_v(
    name: Seq<char>,
    abbr: Seq<char>,
    aliases: Seq<Seq<char>>,
    variants: Seq<VariantV>,
) -> UnitV {
    UnitV { name, abbr, aliases, formula: None, variants }
}

/// Model of a formula-based unit.
pub open spec fn formula_unit_v(
    name: Seq<char>,
    abbr: Seq<char>,
    aliases: Seq<Seq<char>>,
    scale: Scale,
) -> UnitV {
    UnitV { name, abbr, aliases, formula: Some(scale), variants: Seq::empty() }
}

fn variant_of(label: &str, mant: i128, scale: u32) -> (v: Variant)
    requires
        mant > 0,
        scale <= 30,
    ensures
        variant_wf(v@),
        v.ratio.wf(),
        v@ == variant_v(label@, mant as int, scale as nat),
        v@.label == label@,
        v@.ratio == rat_make(mant as int, pow10(scale as nat) as int),
{
    Variant { label: String::from_str(label), ratio: Rational::from_decimal(mant, scale) }
}

fn ratio_unit(name: &str, abbr: &str, aliases: Vec<String>, mant: i128, scale: u32) -> (u: Unit)
    requires
        mant > 0,
        scale <= 30,
    ensures
        unit_wf(u@),
        unit_ok(u),
        u@ == ratio_unit_v(name@, abbr@, aliases.deep_view(), mant as int, scale as nat),
{
    let mut vs: Vec<Variant> = Vec::new();
    vs.push(variant_of("", mant, scale));
    let u = Unit {
        name: String::from_str(name),
        abbr: String::from_str(abbr),
        aliases,
        conversion: Conversion::Ratios(vs),
    };
    proof {
        assert(u@.variants =~= seq![
            VariantV { label: ""@, ratio: rat_make(mant as int, pow10(scale as nat) as int) },
        ]);
        assert(unit_wf(u@));
        assert(u@ == ratio_unit_v(name@, abbr@, aliases.deep_view(), mant as int,
            scale as nat));
    }
    u
}

fn multi_ratio_unit(name: &str, abbr: &str, aliases: Vec<String>, vs: Vec<Variant>) -> (u: Unit)
    requires
        vs@.len() >= 1,
        forall|i: int| 0 <= i < vs@.len() ==> variant_wf((#[trigger] vs@[i])@),
        forall|i: int, j: int|
            0 <= i < j < vs@.len() ==> (#[trigger] vs@[i])@.label != (#[trigger] vs@[j])@.label,
        forall|i: int| 0 <= i < vs@.len() ==> (#[trigger] vs@[i]).ratio.wf(),
    ensures
        unit_wf(u@),
        unit_ok(u),
        u@ == multi_unit_v(name@, abbr@, aliases.deep_view(), vs@.map_values(|v: Variant| v@)),
{
    let u = Unit {
        name: String::from_str(name),
        abbr: String::from_str(abbr),
        aliases,
        conversion: Conversion::Ratios(vs),
    };
    u
}

fn formula_unit(name: &str, abbr: &str, aliases: Vec<String>, scale: Scale) -> (u: Unit)
    ensures
        unit_wf(u@),
        unit_ok(u),
        u@ == formula_unit_v(name@, abbr@, aliases.deep_view(), scale),
{
    Unit {
        name: String::from_str(name),
        abbr: String::from_str(abbr),
        aliases,
        conversion: Conversion::Formula(scale),
    }
}

fn family_of(name: &str, units: Vec<Unit>) -> (f: Family)
    requires
        forall|i: int| 0 <= i < units@.len() ==> unit_wf((#[trigger] units@[i])@),
        forall|i: int| 0 <= i < units@.len() ==> unit_ok(#[trigger] units@[i]),
    ensures
        family_wf(f@),
        family_ok(f),
        f@ == (FamilyV { name: name@, units: units@.map_values(|u: Unit| u@) }),
{
    Family { name: String::from_str(name), units }
}

pub open spec fn family_area_v() -> FamilyV {
    FamilyV {
        name: "AREA"@,
        units: seq![
            ratio_unit_v("Square Meter"@, "m²"@, seq!["m2"@, "sq m"@, "square meter"@, "square meters"@, "square metre"@, "square metres"@], 1, 0),
            ratio_unit_v("Square Kilometer"@, "km²"@, seq!["km2"@, "sq km"@, "square kilometer"@, "square kilometers"@, "square kilometre"@, "square kilometres"@], 1000000, 0),
            ratio_unit_v("Square Mile"@, "mi²"@, seq!["mi2"@, "sq mi"@, "square mile"@, "square miles"@], 2590000, 0),
            ratio_unit_v("Square Yard"@, "yd²"@, seq!["yd2"@, "sq yd"@, "square yard"@, "square yards"@], 836127, 6),
            ratio_unit_v("Square Foot"@, "ft²"@, seq!["ft2"@, "sq ft"@, "square foot"@, "square feet"@], 92903, 6),
            ratio_unit_v("Square Inch"@, "in²"@, seq!["in2"@, "sq in"@, "square inch"@, "square inches"@], 64516, 8),
            ratio_unit_v("Hectare"@, "ha"@, seq!["hectare"@, "hectares"@], 10000, 0),
            ratio_unit_v("Acre"@, "a"@, seq!["acre"@, "acres"@], 404686, 2),
        ],
    }
}

pub open spec fn family_digital_storage_v() -> FamilyV {
    FamilyV {
        name: "DIGITAL STORAGE"@,
        units: seq![
            ratio_unit_v("Bit"@, "b"@, seq!["bit"@, "bits"@], 1, 0),
            ratio_unit_v("Kilobit"@, "kb"@, seq!["kbit"@, "kbits"@, "kilobit"@, "kilobits"@], 1000, 0),
            ratio_unit_v("Kibibit"@, "Kib"@, seq!["kibit"@, "kibits"@, "kibibit"@, "kibibits"@], 1024, 0),
            ratio_unit_v("Megabit"@, "Mb"@, seq!["mbit"@, "mbits"@, "megabit"@, "megabits"@], 1000000, 0),
            ratio_unit_v("Mebibit"@, "Mib"@, seq!["mibit"@, "mibits"@, "mebibit"@, "mebibits"@], 1048576, 0),
            ratio_unit_v("Gigabit"@, "Gb"@, seq!["gbit"@, "gbits"@, "gigabit"@, "gigabits"@], 1000000000, 0),
            ratio_unit_v("Gibibit"@, "Gib"@, seq!["gibit"@, "gibits"@, "gibibit"@, "gibibits"@], 1073741824, 0),
            ratio_unit_v("Terabit"@, "Tb"@, seq!["tbit"@, "tbits"@, "terabit"@, "terabits"@], 1000000000000, 0),
            ratio_unit_v("Tebibit"@, "Tib"@, seq!["tibit"@, "tibits"@, "tebibit"@, "tebibits"@], 1099511627776, 0),
            ratio_unit_v("Petabit"@, "Pb"@, seq!["pbit"@, "pbits"@, "petabit"@, "petabits"@], 1000000000000000, 0),
            ratio_unit_v("Pebibit"@, "Pib"@, seq!["pibit"@, "pibits"@, "pebibit"@, "pebibits"@], 1125899906842624, 0),
            ratio_unit_v("Byte"@, "B"@, seq!["byte"@, "bytes"@], 8, 0),
            ratio_unit_v("Kilobyte"@, "kB"@, seq!["kbyte"@, "kbytes"@, "kilobyte"@, "kilobytes"@], 8000, 0),
            ratio_unit_v("Kibibyte"@, "KiB"@, seq!["kibyte"@, "kibytes"@, "kibibyte"@, "kibibytes"@], 8192, 0),
            ratio_unit_v("Megabyte"@, "MB"@, seq!["mbyte"@, "mbytes"@, "megabyte"@, "megabytes"@], 8000000, 0),
            ratio_unit_v("Mebibyte"@, "MiB"@, seq!["mibyte"@, "mibytes"@, "mebibyte"@, "mebibytes"@], 8388608, 0),
            ratio_unit_v("Gigabyte"@, "GB"@, seq!["gbyte"@, "gbytes"@, "gigabyte"@, "gigabytes"@], 8000000000, 0),
            ratio_unit_v("Gibibyte"@, "GiB"@, seq!["gibyte"@, "gibytes"@, "gibibyte"@, "gibibytes"@], 8589934592, 0),
            ratio_unit_v("Terabyte"@, "TB"@, seq!["tbyte"@, "tbytes"@, "terabyte"@, "terabytes"@], 8000000000000, 0),
            ratio_unit_v("Tebibyte"@, "TiB"@, seq!["tibyte"@, "tibytes"@, "tebibyte"@, "tebibytes"@], 8796093022208, 0),
            ratio_unit_v("Petabyte"@, "PB"@, seq!["pbyte"@, "pbytes"@, "petabyte"@, "petabytes"@], 8000000000000000, 0),
            ratio_unit_v("Pebibyte"@, "PiB"@, seq!["pibyte"@, "pibytes"@, "pebibyte"@, "pebibytes"@], 9007199254740992, 0),
        ],
    }
}

pub open spec fn family_energy_v() -> FamilyV {
    FamilyV {
        name: "ENERGY"@,
        units: seq![
            ratio_unit_v("Joule"@, "J"@, seq!["joule"@, "joules"@], 1, 0),
            ratio_unit_v("Kilojoule"@, "kJ"@, seq!["kilojoule"@, "kilojoules"@], 1000, 0),
            ratio_unit_v("Calorie"@, "cal"@, seq!["cals"@, "calorie"@, "calories"@], 4184, 3),
            ratio_unit_v("Kilocalorie"@, "kcal"@, seq!["kcals"@, "kilocalorie"@, "kilocalories"@], 4184, 0),
            ratio_unit_v("Watt-hour"@, "W⋅h"@, seq!["wh"@, "whs"@, "watt-hour"@, "watt-hours"@, "watt hour"@, "watt hours"@], 3600, 0),
            ratio_unit_v("Kilowatt-hour"@, "kW⋅h"@, seq!["kwh"@, "kwhs"@, "kilowatt-hour"@, "kilowatt-hours"@, "kilowatt hour"@, "kilowatt hours"@], 3600000, 0),
            ratio_unit_v("Electronvolt"@, "eV"@, seq!["evs"@, "electronvolt"@, "electronvolts"@, "electron-volt"@, "electron-volts"@, "electron volt"@, "electron volts"@], 16022, 23),
            ratio_unit_v("British Thermal Unit"@, "Btu"@, seq!["btus"@, "british thermal unit"@, "british thermal units"@], 105506, 2),
            ratio_unit_v("Therm"@, "thm"@, seq!["thms"@, "therm"@, "therms"@], 105500000, 0),
            ratio_unit_v("Foot-Pound Force"@, "ft⋅lbf"@, seq!["ftlbf"@, "ftlbfs"@, "ftlb"@, "ftlbs"@, "foot-pound force"@, "foot pound force"@, "foot-pound"@, "foot pound"@], 135582, 5),
        ],
    }
}

pub open spec fn family_frequency_v() -> FamilyV {
    FamilyV {
        name: "FREQUENCY"@,
        units: seq![
            ratio_unit_v("Hertz"@, "Hz"@, seq!["hertz"@], 1, 0),
            ratio_unit_v("Kilohertz"@, "kHz"@, seq!["kilohertz"@], 1000, 0),
            ratio_unit_v("Megahertz"@, "MHz"@, seq!["megahertz"@], 1000000, 0),
            ratio_unit_v("Gigahertz"@, "GHz"@, seq!["gigahertz"@], 1000000000, 0),
        ],
    }
}

pub open spec fn family_length_v() -> FamilyV {
    FamilyV {
        name: "LENGTH"@,
        units: seq![
            ratio_unit_v("Meter"@, "m"@, seq!["meter"@, "meters"@, "metre"@, "metres"@], 1, 0),
            ratio_unit_v("Kilometer"@, "km"@, seq!["kilometer"@, "kilometers"@, "kilometre"@, "kilometres"@], 1000, 0),
            ratio_unit_v("Centimeter"@, "cm"@, seq!["centimeter"@, "centimeters"@, "centimetre"@, "centimetres"@], 1, 2),
            ratio_unit_v("Millimeter"@, "mm"@, seq!["millimeter"@, "millimeters"@, "millimetre"@, "millimetres"@], 1, 3),
            ratio_unit_v("Micrometer"@, "μm"@, seq!["micrometer"@, "micrometers"@, "micrometre"@, "micrometres"@], 1, 6),
            ratio_unit_v("Nanometer"@, "nm"@, seq!["nanometer"@, "nanometers"@, "nanometre"@, "nanometres"@], 1, 9),
            ratio_unit_v("Mile"@, "mi"@, seq!["mile"@, "miles"@], 160934, 2),
            ratio_unit_v("Nautical Mile"@, "nmi"@, seq!["nautical mile"@, "nautical miles"@], 1852, 0),
            ratio_unit_v("Yard"@, "yd"@, seq!["yard"@, "yards"@], 9144, 4),
            ratio_unit_v("Foot"@, "ft"@, seq!["foot"@, "feet"@], 3048, 4),
            ratio_unit_v("Inch"@, "in"@, seq!["in"@, "inch"@, "inches"@], 254, 4),
        ],
    }
}

pub open spec fn family_mass_v() -> FamilyV {
    FamilyV {
        name: "MASS"@,
        units: seq![
            ratio_unit_v("Kilogram"@, "kg"@, seq!["kilogram"@, "kilograms"@], 1, 0),
            multi_unit_v("Tonne • Metric / Imperial / US"@, "t"@, seq!["tonne"@, "tonnes"@], seq![variant_v("Metric"@, 1000, 0), variant_v("Imperial"@, 101605, 2), variant_v("US"@, 907185, 3)]),
            ratio_unit_v("Gram"@, "gm"@, seq!["gram"@, "grams"@], 1, 3),
            ratio_unit_v("Milligram"@, "mg"@, seq!["milligram"@, "milligrams"@], 1, 6),
            ratio_unit_v("Microgram"@, "µg"@, seq!["microgram"@, "micrograms"@], 1, 9),
            ratio_unit_v("Stone"@, "st"@, seq!["stone"@, "stones"@], 635029, 5),
            ratio_unit_v("Pound"@, "lb"@, seq!["pound"@, "pounds"@], 453592, 6),
            ratio_unit_v("Ounce"@, "oz"@, seq!["ounce"@, "ounces"@], 283495, 7),
        ],
    }
}

pub open spec fn family_plane_angle_v() -> FamilyV {
    FamilyV {
        name: "PLANE ANGLE"@,
        units: seq![
            ratio_unit_v("Radian"@, "rad"@, seq!["rads"@, "r"@, "radian"@, "radians"@], 1, 0),
            ratio_unit_v("Degree"@, "°"@, seq!["d"@, "degree"@, "degrees"@], 174533, 7),
            ratio_unit_v("Gradian"@, "ᵍ"@, seq!["grad"@, "grads"@, "gradian"@, "gradians"@, "gr"@, "grs"@, "grd"@, "grds"@, "gon"@, "gons"@, "grade"@, "grades"@], 15708, 6),
            ratio_unit_v("Milliradian"@, "mrad"@, seq!["mrads"@, "mr"@, "mrs"@, "mil"@, "mils"@, "milliradian"@, "milliradians"@], 1, 3),
            ratio_unit_v("Minute of Arc"@, "arcmin"@, seq!["minute of arc"@, "minutes of arc"@, "minute arc"@, "minutes arc"@, "arc minute"@, "arc minutes"@, "arcminute"@, "arcminutes"@, "arcmin"@, "arcmins"@, "ma"@, "am"@], 290888, 9),
            ratio_unit_v("Second of Arc"@, "arcsec"@, seq!["second of arc"@, "seconds of arc"@, "second arc"@, "seconds arc"@, "arc second"@, "arc seconds"@, "arcsecond"@, "arcseconds"@, "arcsec"@, "arcsecs"@, "sa"@, "as"@], 48481, 10),
        ],
    }
}

pub open spec fn family_pressure_v() -> FamilyV {
    FamilyV {
        name: "PRESSURE"@,
        units: seq![
            ratio_unit_v("Pascal"@, "Pa"@, seq!["pascal"@, "pascals"@], 1, 0),
            ratio_unit_v("Bar"@, "bar"@, seq!["bars"@], 100000, 0),
            ratio_unit_v("Pound-Force per Square Inch"@, "psi"@, seq!["psis"@, "lbf/in2"@, "pound-force per square inch"@], 689476, 2),
            ratio_unit_v("Standard Atmosphere"@, "atm"@, seq!["atms"@, "standard atmosphere"@, "standard atmospheres"@], 101325, 0),
            ratio_unit_v("Torr"@, "Torr"@, seq!["torrs"@], 133322, 3),
        ],
    }
}

pub open spec fn family_temperature_v() -> FamilyV {
    FamilyV {
        name: "TEMPERATURE"@,
        units: seq![
            formula_unit_v("Kelvin"@, "K"@, seq!["k"@, "kelvin"@], Scale::Kelvin),
            formula_unit_v("Celsius"@, "°C"@, seq!["c"@, "celsius"@], Scale::Celsius),
            formula_unit_v("Fahrenheit"@, "°F"@, seq!["f"@, "fahrenheit"@], Scale::Fahrenheit),
        ],
    }
}

pub open spec fn family_time_v() -> FamilyV {
    FamilyV {
        name: "TIME"@,
        units: seq![
            ratio_unit_v("Second"@, "s"@, seq!["sec"@, "second"@, "seconds"@], 1, 0),
            ratio_unit_v("Nanosecond"@, "ns"@, seq!["nanosecond"@, "nanoseconds"@], 1, 9),
            ratio_unit_v("Microsecond"@, "μs"@, seq!["microsecond"@, "microseconds"@], 1, 6),
            ratio_unit_v("Millisecond"@, "ms"@, seq!["millisecond"@, "milliseconds"@], 1, 3),
            ratio_unit_v("Minute"@, "min"@, seq!["m"@, "mins"@, "minute"@, "minutes"@], 60, 0),
            ratio_unit_v("Hour"@, "hr"@, seq!["h"@, "hrs"@, "hour"@, "hours"@], 3600, 0),
            ratio_unit_v("Day"@, "d"@, seq!["day"@, "days"@], 86400, 0),
            ratio_unit_v("Week"@, "wk"@, seq!["w"@, "week"@, "weeks"@], 604800, 0),
            ratio_unit_v("Month"@, "mth"@, seq!["m"@, "month"@, "months"@], 2629746, 0),
            ratio_unit_v("Year"@, "yr"@, seq!["y"@, "yrs"@, "year"@, "years"@], 31556952, 0),
            ratio_unit_v("Decade"@, "dec"@, seq!["d"@, "decs"@, "decade"@, "decades"@], 315569520, 0),
            ratio_unit_v("Century"@, "cent"@, seq!["c"@, "century"@, "centuries"@], 3155695200, 0),
        ],
    }
}

pub open spec fn family_volume_v() -> FamilyV {
    FamilyV {
        name: "VOLUME"@,
        units: seq![
            ratio_unit_v("Cubic Meter"@, "m³"@, seq!["m3"@, "meter3"@, "meters3"@, "metre3"@, "metres3"@, "cubic meter"@, "cubic meters"@, "cubic metre"@, "cubic metres"@], 1, 0),
            ratio_unit_v("Liter"@, "l"@, seq!["liter"@, "liters"@, "litre"@, "litres"@], 1, 3),
            ratio_unit_v("Milliliter"@, "ml"@, seq!["milliliter"@, "milliliters"@, "millilitre"@, "millilitres"@], 1, 6),
            multi_unit_v("Gallon • Imperial / US liquid"@, "gal"@, seq!["gallon"@, "gallons"@], seq![variant_v("Imperial"@, 454609, 8), variant_v("US liquid"@, 378541, 8)]),
            multi_unit_v("Quart • Imperial / US liquid"@, "qt"@, seq!["quart"@, "quarts"@], seq![variant_v("Imperial"@, 113652, 8), variant_v("US liquid"@, 946353, 9)]),
            multi_unit_v("Pint • Imperial / US liquid"@, "pt"@, seq!["pint"@, "pints"@], seq![variant_v("Imperial"@, 568261, 9), variant_v("US liquid"@, 473176, 9)]),
            multi_unit_v("Cup • Imperial / US legal"@, "c"@, seq!["cup"@, "cups"@], seq![variant_v("Imperial"@, 284131, 9), variant_v("US legal"@, 24, 5)]),
            multi_unit_v("Fluid Ounce • Imperial / US"@, "fl oz"@, seq!["floz"@, "fluid ounce"@, "fluid ounces"@], seq![variant_v("Imperial"@, 28413, 9), variant_v("US"@, 29574, 9)]),
            multi_unit_v("Tablespoon • Imperial / US"@, "tbsp"@, seq!["tablespoon"@, "tablespoons"@], seq![variant_v("Imperial"@, 17758, 9), variant_v("US"@, 14787, 9)]),
            multi_unit_v("Teaspoon • Imperial / US"@, "tsp"@, seq!["teaspoon"@, "teaspoons"@], seq![variant_v("Imperial"@, 59194, 10), variant_v("US"@, 49289, 10)]),
            ratio_unit_v("Cubic Foot"@, "ft³"@, seq!["ft3"@, "cu ft"@, "cubic foot"@, "cubic feet"@], 283168, 7),
            ratio_unit_v("Cubic Inch"@, "in³"@, seq!["in3"@, "cu in"@, "cubic inch"@, "cubic inches"@], 16387, 9),
        ],
    }
}

#[verifier::rlimit(50)]
fn family_area() -> (f: Family)
    ensures
        family_wf(f@),
        family_ok(f),
        f@ == family_area_v(),
{
    let mut units: Vec<Unit> = Vec::new();
    let mut al: Vec<String> = Vec::new();
    al.push(String::from_str("m2"));
    al.push(String::from_str("sq m"));
    al.push(String::from_str("square meter"));
    al.push(String::from_str("square meters"));
    al.push(String::from_str("square metre"));
    al.push(String::from_str("square metres"));
    proof {
        assert(al.deep_view() =~= seq!["m2"@, "sq m"@, "square meter"@, "square meters"@, "square metre"@, "square metres"@]);
    }
    units.push(ratio_unit("Square Meter", "m²", al, 1, 0));
    let mut al: Vec<String> = Vec::new();
    al.push(String::from_str("km2"));
    al.push(String::from_str("sq km"));
    al.push(String::from_str("square kilometer"));
    al.push(String::from_str("square kilometers"));
    al.push(String::from_str("square kilometre"));
    al.push(String::from_str("square kilometres"));
    proof {
        assert(al.deep_view() =~= seq!["km2"@, "sq km"@, "square kilometer"@, "square kilometers"@, "square kilometre"@, "square kilometres"@]);
    }
    units.push(ratio_unit("Square Kilometer", "km²", al, 1000000, 0));
    let mut al: Vec<String> = Vec::new();
    al.push(String::from_str("mi2"));
    al.push(String::from_str("sq mi"));
    al.push(String::from_str("square mile"));
    al.push(String::from_str("square miles"));
    proof {
        assert(al.deep_view() =~= seq!["mi2"@, "sq mi"@, "square mile"@, "square miles"@]);
    }
    units.push(ratio_unit("Square Mile", "mi²", al, 2590000, 0));
    let mut al: Vec<String> = Vec::new();
    al.push(String::from_str("yd2"));
    al.push(String::from_str("sq yd"));
    al.push(String::from_str("square yard"));
    al.push(String::from_str("square yards"));
    proof {
        assert(al.deep_view() =~= seq!["yd2"@, "sq yd"@, "square yard"@, "square yards"@]);
    }
    units.push(ratio_unit("Square Yard", "yd²", al, 836127, 6));
    let mut al: Vec<String> = Vec::new();
    al.push(String::from_str("ft2"));
    al.push(String::from_str("sq ft"));
    al.push(String::from_str("square foot"));
    al.push(String::from_str("square feet"));
    proof {
        assert(al.deep_view() =~= seq!["ft2"@, "sq ft"@, "square foot"@, "square feet"@]);
    }
    units.push(ratio_unit("Square Foot", "ft²", al, 92903, 6));
    let mut al: Vec<String> = Vec::new();
    al.push(String::from_str("in2"));
    al.push(String::from_str("sq in"));
    al.push(String::from_str("square inch"));
    al.push(String::from_str("square inches"));
    proof {
        assert(al.deep_view() =~= seq!["in2"@, "sq in"@, "square inch"@, "square inches"@]);
    }
    units.push(ratio_unit("Square Inch", "in²", al, 64516, 8));
    let mut al: Vec<String> = Vec::new();
    al.push(String::from_str("hectare"));
    al.push(String::from_str("hectares"));
    proof {
        assert(al.deep_view() =~= seq!["hectare"@, "hectares"@]);
    }
    units.push(ratio_unit("Hectare", "ha", al, 10000, 0));
    let mut al: Vec<String> = Vec::new();
    al.push(String::from_str("acre"));
    al.push(String::from_str("acres"));
    proof {
        assert(al.deep_view() =~= seq!["acre"@, "acres"@]);
    }
    units.push(ratio_unit("Acre", "a", al, 404686, 2));
    let f = family_of("AREA", units);
    proof {
        assert(f@.units =~= family_area_v().units);
        assert(f@ == family_area_v());
    }
    f
}

#[verifier::rlimit(50)]
fn family_digital_storage() -> (f: Family)
    ensures
        family_wf(f@),
        family_ok(f),
        f@ == family_digital_storage_v(),
{
    let mut units: Vec<Unit> = Vec::new();
    let mut al: Vec<String> = Vec::new();
    al.push(String::from_str("bit"));
    al.push(String::from_str("bits"));
    proof {
        assert(al.deep_view() =~= seq!["bit"@, "bits"@]);
    }
    units.push(ratio_unit("Bit", "b", al, 1, 0));
    let mut al: Vec<String> = Vec::new();
    al.push(String::from_str("kbit"));
    al.push(String::from_str("kbits"));
    al.push(String::from_str("kilobit"));
    al.push(String::from_str("kilobits"));
    proof {
        assert(al.deep_view() =~= seq!["kbit"@, "kbits"@, "kilobit"@, "kilobits"@]);
    }
    units.push(ratio_unit("Kilobit", "kb", al, 1000, 0));
    let mut al: Vec<String> = Vec::new();
    al.push(String::from_str("kibit"));
    al.push(String::from_str("kibits"));
    al.push(String::from_str("kibibit"));
    al.push(String::from_str("kibibits"));
    proof {
        assert(al.deep_view() =~= seq!["kibit"@, "kibits"@, "kibibit"@, "kibibits"@]);
    }
    units.push(ratio_unit("Kibibit", "Kib", al, 1024, 0));
    let mut al: Vec<String> = Vec::new();
    al.push(String::from_str("mbit"));
    al.push(String::from_str("mbits"));
    al.push(String::from_str("megabit"));
    al.push(String::from_str("megabits"));
    proof {
        assert(al.deep_view() =~= seq!["mbit"@, "mbits"@, "megabit"@, "megabits"@]);
    }
    units.push(ratio_unit("Megabit", "Mb", al, 1000000, 0));
    let mut al: Vec<String> = Vec::new();
    al.push(String::from_str("mibit"));
    al.push(String::from_str("mibits"));
    al.push(String::from_str("mebibit"));
    al.push(String::from_str("mebibits"));
    proof {
        assert(al.deep_view() =~= seq!["mibit"@, "mibits"@, "mebibit"@, "mebibits"@]);
    }
    units.push(ratio_unit("Mebibit", "Mib", al, 1048576, 0));
    let mut al: Vec<String> = Vec::new();
    al.push(String::from_str("gbit"));
    al.push(String::from_str("gbits"));
    al.push(String::from_str("gigabit"));
    al.push(String::from_str("gigabits"));
    proof {
        assert(al.deep_view() =~= seq!["gbit"@, "gbits"@, "gigabit"@, "gigabits"@]);
    }
    units.push(ratio_unit("Gigabit", "Gb", al, 1000000000, 0));
    let mut al: Vec<String> = Vec::new();
    al.push(String::from_str("gibit"));
    al.push(String::from_str("gibits"));
    al.push(String::from_str("gibibit"));
    al.push(String::from_str("gibibits"));
    proof {
        assert(al.deep_view() =~= seq!["gibit"@, "gibits"@, "gibibit"@, "gibibits"@]);
    }
    units.push(ratio_unit("Gibibit", "Gib", al, 1073741824, 0));
    let mut al: Vec<String> = Vec::new();
    al.push(String::from_str("tbit"));
    al.push(String::from_str("tbits"));
    al.push(String::from_str("terabit"));
    al.push(String::from_str("terabits"));
    proof {
        assert(al.deep_view() =~= seq!["tbit"@, "tbits"@, "terabit"@, "terabits"@]);
    }
    units.push(ratio_unit("Terabit", "Tb", al, 1000000000000, 0));
    let mut al: Vec<String> = Vec::new();
    al.push(String::from_str("tibit"));
    al.push(String::from_str("tibits"));
    al.push(String::from_str("tebibit"));
    al.push(String::from_str("tebibits"));
    proof {
        assert(al.deep_view() =~= seq!["tibit"@, "tibits"@, "tebibit"@, "tebibits"@]);
    }
    units.push(ratio_unit("Tebibit", "Tib", al, 1099511627776, 0));
    let mut al: Vec<String> = Vec::new();
    al.push(String::from_str("pbit"));
    al.push(String::from_str("pbits"));
    al.push(String::from_str("petabit"));
    al.push(String::from_str("petabits"));
    proof {
        assert(al.deep_view() =~= seq!["pbit"@, "pbits"@, "petabit"@, "petabits"@]);
    }
    units.push(ratio_unit("Petabit", "Pb", al, 1000000000000000, 0));
    let mut al: Vec<String> = Vec::new();
    al.push(String::from_str("pibit"));
    al.push(String::from_str("pibits"));
    al.push(String::from_str("pebibit"));
    al.push(String::from_str("pebibits"));
    proof {
        assert(al.deep_view() =~= seq!["pibit"@, "pibits"@, "pebibit"@, "pebibits"@]);
    }
    units.push(ratio_unit("Pebibit", "Pib", al, 1125899906842624, 0));
    let mut al: Vec<String> = Vec::new();
    al.push(String::from_str("byte"));
    al.push(String::from_str("bytes"));
    proof {
        assert(al.deep_view() =~= seq!["byte"@, "bytes"@]);
    }
    units.push(ratio_unit("Byte", "B", al, 8, 0));
    let mut al: Vec<String> = Vec::new();
    al.push(String::from_str("kbyte"));
    al.push(String::from_str("kbytes"));
    al.push(String::from_str("kilobyte"));
    al.push(String::from_str("kilobytes"));
    proof {
        assert(al.deep_view() =~= seq!["kbyte"@, "kbytes"@, "kilobyte"@, "kilobytes"@]);
    }
    units.push(ratio_unit("Kilobyte", "kB", al, 8000, 0));
    let mut al: Vec<String> = Vec::new();
    al.push(String::from_str("kibyte"));
    al.push(String::from_str("kibytes"));
    al.push(String::from_str("kibibyte"));
    al.push(String::from_str("kibibytes"));
    proof {
        assert(al.deep_view() =~= seq!["kibyte"@, "kibytes"@, "kibibyte"@, "kibibytes"@]);
    }
    units.push(ratio_unit("Kibibyte", "KiB", al, 8192, 0));
    let mut al: Vec<String> = Vec::new();
    al.push(String::from_str("mbyte"));
    al.push(String::from_str("mbytes"));
    al.push(String::from_str("megabyte"));
    al.push(String::from_str("megabytes"));
    proof {
        assert(al.deep_view() =~= seq!["mbyte"@, "mbytes"@, "megabyte"@, "megabytes"@]);
    }
    units.push(ratio_unit("Megabyte", "MB", al, 8000000, 0));
    let mut al: Vec<String> = Vec::new();
    al.push(String::from_str("mibyte"));
    al.push(String::from_str("mibytes"));
    al.push(String::from_str("mebibyte"));
    al.push(String::from_str("mebibytes"));
    proof {
        assert(al.deep_view() =~= seq!["mibyte"@, "mibytes"@, "mebibyte"@, "mebibytes"@]);
    }
    units.push(ratio_unit("Mebibyte", "MiB", al, 8388608, 0));
    let mut al: Vec<String> = Vec::new();
    al.push(String::from_str("gbyte"));
    al.push(String::from_str("gbytes"));
    al.push(String::from_str("gigabyte"));
    al.push(String::from_str("gigabytes"));
    proof {
        assert(al.deep_view() =~= seq!["gbyte"@, "gbytes"@, "gigabyte"@, "gigabytes"@]);
    }
    units.push(ratio_unit("Gigabyte", "GB", al, 8000000000, 0));
    let mut al: Vec<String> = Vec::new();
    al.push(String::from_str("gibyte"));
    al.push(String::from_str("gibytes"));
    al.push(String::from_str("gibibyte"));
    al.push(String::from_str("gibibytes"));
    proof {
        assert(al.deep_view() =~= seq!["gibyte"@, "gibytes"@, "gibibyte"@, "gibibytes"@]);
    }
    units.push(ratio_unit("Gibibyte", "GiB", al, 8589934592, 0));
    let mut al: Vec<String> = Vec::new();
    al.push(String::from_str("tbyte"));
    al.push(String::from_str("tbytes"));
    al.push(String::from_str("terabyte"));
    al.push(String::from_str("terabytes"));
    proof {
        assert(al.deep_view() =~= seq!["tbyte"@, "tbytes"@, "terabyte"@, "terabytes"@]);
    }
    units.push(ratio_unit("Terabyte", "TB", al, 8000000000000, 0));
    let mut al: Vec<String> = Vec::new();
    al.push(String::from_str("tibyte"));
    al.push(String::from_str("tibytes"));
    al.push(String::from_str("tebibyte"));
    al.push(String::from_str("tebibytes"));
    proof {
        assert(al.deep_view() =~= seq!["tibyte"@, "tibytes"@, "tebibyte"@, "tebibytes"@]);
    }
    units.push(ratio_unit("Tebibyte", "TiB", al, 8796093022208, 0));
    let mut al: Vec<String> = Vec::new();
    al.push(String::from_str("pbyte"));
    al.push(String::from_str("pbytes"));
    al.push(String::from_str("petabyte"));
    al.push(String::from_str("petabytes"));
    proof {
        assert(al.deep_view() =~= seq!["pbyte"@, "pbytes"@, "petabyte"@, "petabytes"@]);
    }
    units.push(ratio_unit("Petabyte", "PB", al, 8000000000000000, 0));
    let mut al: Vec<String> = Vec::new();
    al.push(String::from_str("pibyte"));
    al.push(String::from_str("pibytes"));
    al.push(String::from_str("pebibyte"));
    al.push(String::from_str("pebibytes"));
    proof {
        assert(al.deep_view() =~= seq!["pibyte"@, "pibytes"@, "pebibyte"@, "pebibytes"@]);
    }
    units.push(ratio_unit("Pebibyte", "PiB", al, 9007199254740992, 0));
    let f = family_of("DIGITAL STORAGE", units);
    proof {
        assert(f@.units =~= family_digital_storage_v().units);
        assert(f@ == family_digital_storage_v());
    }
    f
}

#[verifier::rlimit(50)]
fn family_energy() -> (f: Family)
    ensures
        family_wf(f@),
        family_ok(f),
        f@ == family_energy_v(),
{
    let mut units: Vec<Unit> = Vec::new();
    let mut al: Vec<String> = Vec::new();
    al.push(String::from_str("joule"));
    al.push(String::from_str("joules"));
    proof {
        assert(al.deep_view() =~= seq!["joule"@, "joules"@]);
    }
    units.push(ratio_unit("Joule", "J", al, 1, 0));
    let mut al: Vec<String> = Vec::new();
    al.push(String::from_str("kilojoule"));
    al.push(String::from_str("kilojoules"));
    proof {
        assert(al.deep_view() =~= seq!["kilojoule"@, "kilojoules"@]);
    }
    units.push(ratio_unit("Kilojoule", "kJ", al, 1000, 0));
    let mut al: Vec<String> = Vec::new();
    al.push(String::from_str("cals"));
    al.push(String::from_str("calorie"));
    al.push(String::from_str("calories"));
    proof {
        assert(al.deep_view() =~= seq!["cals"@, "calorie"@, "calories"@]);
    }
    units.push(ratio_unit("Calorie", "cal", al, 4184, 3));
    let mut al: Vec<String> = Vec::new();
    al.push(String::from_str("kcals"));
    al.push(String::from_str("kilocalorie"));
    al.push(String::from_str("kilocalories"));
    proof {
        assert(al.deep_view() =~= seq!["kcals"@, "kilocalorie"@, "kilocalories"@]);
    }
    units.push(ratio_unit("Kilocalorie", "kcal", al, 4184, 0));
    let mut al: Vec<String> = Vec::new();
    al.push(String::from_str("wh"));
    al.push(String::from_str("whs"));
    al.push(String::from_str("watt-hour"));
    al.push(String::from_str("watt-hours"));
    al.push(String::from_str("watt hour"));
    al.push(String::from_str("watt hours"));
    proof {
        assert(al.deep_view() =~= seq!["wh"@, "whs"@, "watt-hour"@, "watt-hours"@, "watt hour"@, "watt hours"@]);
    }
    units.push(ratio_unit("Watt-hour", "W⋅h", al, 3600, 0));
    let mut al: Vec<String> = Vec::new();
    al.push(String::from_str("kwh"));
    al.push(String::from_str("kwhs"));
    al.push(String::from_str("kilowatt-hour"));
    al.push(String::from_str("kilowatt-hours"));
    al.push(String::from_str("kilowatt hour"));
    al.push(String::from_str("kilowatt hours"));
    proof {
        assert(al.deep_view() =~= seq!["kwh"@, "kwhs"@, "kilowatt-hour"@, "kilowatt-hours"@, "kilowatt hour"@, "kilowatt hours"@]);
    }
    units.push(ratio_unit("Kilowatt-hour", "kW⋅h", al, 3600000, 0));
    let mut al: Vec<String> = Vec::new();
    al.push(String::from_str("evs"));
    al.push(String::from_str("electronvolt"));
    al.push(String::from_str("electronvolts"));
    al.push(String::from_str("electron-volt"));
    al.push(String::from_str("electron-volts"));
    al.push(String::from_str("electron volt"));
    al.push(String::from_str("electron volts"));
    proof {
        assert(al.deep_view() =~= seq!["evs"@, "electronvolt"@, "electronvolts"@, "electron-volt"@, "electron-volts"@, "electron volt"@, "electron volts"@]);
    }
    units.push(ratio_unit("Electronvolt", "eV", al, 16022, 23));
    let mut al: Vec<String> = Vec::new();
    al.push(String::from_str("btus"));
    al.push(String::from_str("british thermal unit"));
    al.push(String::from_str("british thermal units"));
    proof {
        assert(al.deep_view() =~= seq!["btus"@, "british thermal unit"@, "british thermal units"@]);
    }
    units.push(ratio_unit("British Thermal Unit", "Btu", al, 105506, 2));
    let mut al: Vec<String> = Vec::new();
    al.push(String::from_str("thms"));
    al.push(String::from_str("therm"));
    al.push(String::from_str("therms"));
    proof {
        assert(al.deep_view() =~= seq!["thms"@, "therm"@, "therms"@]);
    }
    units.push(ratio_unit("Therm", "thm", al, 105500000, 0));
    let mut al: Vec<String> = Vec::new();
    al.push(String::from_str("ftlbf"));
    al.push(String::from_str("ftlbfs"));
    al.push(String::from_str("ftlb"));
    al.push(String::from_str("ftlbs"));
    al.push(String::from_str("foot-pound force"));
    al.push(String::from_str("foot pound force"));
    al.push(String::from_str("foot-pound"));
    al.push(String::from_str("foot pound"));
    proof {
        assert(al.deep_view() =~= seq!["ftlbf"@, "ftlbfs"@, "ftlb"@, "ftlbs"@, "foot-pound force"@, "foot pound force"@, "foot-pound"@, "foot pound"@]);
    }
    units.push(ratio_unit("Foot-Pound Force", "ft⋅lbf", al, 135582, 5));
    let f = family_of("ENERGY", units);
    proof {
        assert(f@.units =~= family_energy_v().units);
        assert(f@ == family_energy_v());
    }
    f
}

#[verifier::rlimit(50)]
fn family_frequency() -> (f: Family)
    ensures
        family_wf(f@),
        family_ok(f),
        f@ == family_frequency_v(),
{
    let mut units: Vec<Unit> = Vec::new();
    let mut al: Vec<String> = Vec::new();
    al.push(String::from_str("hertz"));
    proof {
        assert(al.deep_view() =~= seq!["hertz"@]);
    }
    units.push(ratio_unit("Hertz", "Hz", al, 1, 0));
    let mut al: Vec<String> = Vec::new();
    al.push(String::from_str("kilohertz"));
    proof {
        assert(al.deep_view() =~= seq!["kilohertz"@]);
    }
    units.push(ratio_unit("Kilohertz", "kHz", al, 1000, 0));
    let mut al: Vec<String> = Vec::new();
    al.push(String::from_str("megahertz"));
    proof {
        assert(al.deep_view() =~= seq!["megahertz"@]);
    }
    units.push(ratio_unit("Megahertz", "MHz", al, 1000000, 0));
    let mut al: Vec<String> = Vec::new();
    al.push(String::from_str("gigahertz"));
    proof {
        assert(al.deep_view() =~= seq!["gigahertz"@]);
    }
    units.push(ratio_unit("Gigahertz", "GHz", al, 1000000000, 0));
    let f = family_of("FREQUENCY", units);
    proof {
        assert(f@.units =~= family_frequency_v().units);
        assert(f@ == family_frequency_v());
    }
    f
}

#[verifier::rlimit(50)]
fn family_length() -> (f: Family)
    ensures
        family_wf(f@),
        family_ok(f),
        f@ == family_length_v(),
{
    let mut units: Vec<Unit> = Vec::new();
    let mut al: Vec<String> = Vec::new();
    al.push(String::from_str("meter"));
    al.push(String::from_str("meters"));
    al.push(String::from_str("metre"));
    al.push(String::from_str("metres"));
    proof {
        assert(al.deep_view() =~= seq!["meter"@, "meters"@, "metre"@, "metres"@]);
    }
    units.push(ratio_unit("Meter", "m", al, 1, 0));
    let mut al: Vec<String> = Vec::new();
    al.push(String::from_str("kilometer"));
    al.push(String::from_str("kilometers"));
    al.push(String::from_str("kilometre"));
    al.push(String::from_str("kilometres"));
    proof {
        assert(al.deep_view() =~= seq!["kilometer"@, "kilometers"@, "kilometre"@, "kilometres"@]);
    }
    units.push(ratio_unit("Kilometer", "km", al, 1000, 0));
    let mut al: Vec<String> = Vec::new();
    al.push(String::from_str("centimeter"));
    al.push(String::from_str("centimeters"));
    al.push(String::from_str("centimetre"));
    al.push(String::from_str("centimetres"));
    proof {
        assert(al.deep_view() =~= seq!["centimeter"@, "centimeters"@, "centimetre"@, "centimetres"@]);
    }
    units.push(ratio_unit("Centimeter", "cm", al, 1, 2));
    let mut al: Vec<String> = Vec::new();
    al.push(String::from_str("millimeter"));
    al.push(String::from_str("millimeters"));
    al.push(String::from_str("millimetre"));
    al.push(String::from_str("millimetres"));
    proof {
        assert(al.deep_view() =~= seq!["millimeter"@, "millimeters"@, "millimetre"@, "millimetres"@]);
    }
    units.push(ratio_unit("Millimeter", "mm", al, 1, 3));
    let mut al: Vec<String> = Vec::new();
    al.push(String::from_str("micrometer"));
    al.push(String::from_str("micrometers"));
    al.push(String::from_str("micrometre"));
    al.push(String::from_str("micrometres"));
    proof {
        assert(al.deep_view() =~= seq!["micrometer"@, "micrometers"@, "micrometre"@, "micrometres"@]);
    }
    units.push(ratio_unit("Micrometer", "μm", al, 1, 6));
    let mut al: Vec<String> = Vec::new();
    al.push(String::from_str("nanometer"));
    al.push(String::from_str("nanometers"));
    al.push(String::from_str("nanometre"));
    al.push(String::from_str("nanometres"));
    proof {
        assert(al.deep_view() =~= seq!["nanometer"@, "nanometers"@, "nanometre"@, "nanometres"@]);
    }
    units.push(ratio_unit("Nanometer", "nm", al, 1, 9));
    let mut al: Vec<String> = Vec::new();
    al.push(String::from_str("mile"));
    al.push(String::from_str("miles"));
    proof {
        assert(al.deep_view() =~= seq!["mile"@, "miles"@]);
    }
    units.push(ratio_unit("Mile", "mi", al, 160934, 2));
    let mut al: Vec<String> = Vec::new();
    al.push(String::from_str("nautical mile"));
    al.push(String::from_str("nautical miles"));
    proof {
        assert(al.deep_view() =~= seq!["nautical mile"@, "nautical miles"@]);
    }
    units.push(ratio_unit("Nautical Mile", "nmi", al, 1852, 0));
    let mut al: Vec<String> = Vec::new();
    al.push(String::from_str("yard"));
    al.push(String::from_str("yards"));
    proof {
        assert(al.deep_view() =~= seq!["yard"@, "yards"@]);
    }
    units.push(ratio_unit("Yard", "yd", al, 9144, 4));
    let mut al: Vec<String> = Vec::new();
    al.push(String::from_str("foot"));
    al.push(String::from_str("feet"));
    proof {
        assert(al.deep_view() =~= seq!["foot"@, "feet"@]);
    }
    units.push(ratio_unit("Foot", "ft", al, 3048, 4));
    let mut al: Vec<String> = Vec::new();
    al.push(String::from_str("in"));
    al.push(String::from_str("inch"));
    al.push(String::from_str("inches"));
    proof {
        assert(al.deep_view() =~= seq!["in"@, "inch"@, "inches"@]);
    }
    units.push(ratio_unit("Inch", "in", al, 254, 4));
    let f = family_of("LENGTH", units);
    proof {
        assert(f@.units =~= family_length_v().units);
        assert(f@ == family_length_v());
    }
    f
}

#[verifier::rlimit(50)]
fn family_mass() -> (f: Family)
    ensures
        family_wf(f@),
        family_ok(f),
        f@ == family_mass_v(),
{
    let mut units: Vec<Unit> = Vec::new();
    let mut al: Vec<String> = Vec::new();
    al.push(String::from_str("kilogram"));
    al.push(String::from_str("kilograms"));
    proof {
        assert(al.deep_view() =~= seq!["kilogram"@, "kilograms"@]);
    }
    units.push(ratio_unit("Kilogram", "kg", al, 1, 0));
    let mut al: Vec<String> = Vec::new();
    al.push(String::from_str("tonne"));
    al.push(String::from_str("tonnes"));
    proof {
        assert(al.deep_view() =~= seq!["tonne"@, "tonnes"@]);
    }
    let mut vs: Vec<Variant> = Vec::new();
    vs.push(variant_of("Metric", 1000, 0));
    vs.push(variant_of("Imperial", 101605, 2));
    vs.push(variant_of("US", 907185, 3));
    proof {
        reveal_strlit("Metric");
        assert(("Metric")@.len() == 6);
        assert(("Metric")@[0] == 'M');
        reveal_strlit("Imperial");
        assert(("Imperial")@.len() == 8);
        assert(("Imperial")@[0] == 'I');
        reveal_strlit("US");
        assert(("US")@.len() == 2);
        assert(("US")@[0] == 'U');
        assert(vs@[0]@.label != vs@[1]@.label);
        assert(vs@[0]@.label != vs@[2]@.label);
        assert(vs@[1]@.label != vs@[2]@.label);
        assert(vs@.map_values(|v: Variant| v@) =~= seq![variant_v("Metric"@, 1000, 0), variant_v("Imperial"@, 101605, 2), variant_v("US"@, 907185, 3)]);
    }
    units.push(multi_ratio_unit("Tonne • Metric / Imperial / US", "t", al, vs));
    let mut al: Vec<String> = Vec::new();
    al.push(String::from_str("gram"));
    al.push(String::from_str("grams"));
    proof {
        assert(al.deep_view() =~= seq!["gram"@, "grams"@]);
    }
    units.push(ratio_unit("Gram", "gm", al, 1, 3));
    let mut al: Vec<String> = Vec::new();
    al.push(String::from_str("milligram"));
    al.push(String::from_str("milligrams"));
    proof {
        assert(al.deep_view() =~= seq!["milligram"@, "milligrams"@]);
    }
    units.push(ratio_unit("Milligram", "mg", al, 1, 6));
    let mut al: Vec<String> = Vec::new();
    al.push(String::from_str("microgram"));
    al.push(String::from_str("micrograms"));
    proof {
        assert(al.deep_view() =~= seq!["microgram"@, "micrograms"@]);
    }
    units.push(ratio_unit("Microgram", "µg", al, 1, 9));
    let mut al: Vec<String> = Vec::new();
    al.push(String::from_str("stone"));
    al.push(String::from_str("stones"));
    proof {
        assert(al.deep_view() =~= seq!["stone"@, "stones"@]);
    }
    units.push(ratio_unit("Stone", "st", al, 635029, 5));
    let mut al: Vec<String> = Vec::new();
    al.push(String::from_str("pound"));
    al.push(String::from_str("pounds"));
    proof {
        assert(al.deep_view() =~= seq!["pound"@, "pounds"@]);
    }
    units.push(ratio_unit("Pound", "lb", al, 453592, 6));
    let mut al: Vec<String> = Vec::new();
    al.push(String::from_str("ounce"));
    al.push(String::from_str("ounces"));
    proof {
        assert(al.deep_view() =~= seq!["ounce"@, "ounces"@]);
    }
    units.push(ratio_unit("Ounce", "oz", al, 283495, 7));
    let f = family_of("MASS", units);
    proof {
        assert(f@.units =~= family_mass_v().units);
        assert(f@ == family_mass_v());
    }
    f
}

#[verifier::rlimit(50)]
fn family_plane_angle() -> (f: Family)
    ensures
        family_wf(f@),
        family_ok(f),
        f@ == family_plane_angle_v(),
{
    let mut units: Vec<Unit> = Vec::new();
    let mut al: Vec<String> = Vec::new();
    al.push(String::from_str("rads"));
    al.push(String::from_str("r"));
    al.push(String::from_str("radian"));
    al.push(String::from_str("radians"));
    proof {
        assert(al.deep_view() =~= seq!["rads"@, "r"@, "radian"@, "radians"@]);
    }
    units.push(ratio_unit("Radian", "rad", al, 1, 0));
    let mut al: Vec<String> = Vec::new();
    al.push(String::from_str("d"));
    al.push(String::from_str("degree"));
    al.push(String::from_str("degrees"));
    proof {
        assert(al.deep_view() =~= seq!["d"@, "degree"@, "degrees"@]);
    }
    units.push(ratio_unit("Degree", "°", al, 174533, 7));
    let mut al: Vec<String> = Vec::new();
    al.push(String::from_str("grad"));
    al.push(String::from_str("grads"));
    al.push(String::from_str("gradian"));
    al.push(String::from_str("gradians"));
    al.push(String::from_str("gr"));
    al.push(String::from_str("grs"));
    al.push(String::from_str("grd"));
    al.push(String::from_str("grds"));
    al.push(String::from_str("gon"));
    al.push(String::from_str("gons"));
    al.push(String::from_str("grade"));
    al.push(String::from_str("grades"));
    proof {
        assert(al.deep_view() =~= seq!["grad"@, "grads"@, "gradian"@, "gradians"@, "gr"@, "grs"@, "grd"@, "grds"@, "gon"@, "gons"@, "grade"@, "grades"@]);
    }
    units.push(ratio_unit("Gradian", "ᵍ", al, 15708, 6));
    let mut al: Vec<String> = Vec::new();
    al.push(String::from_str("mrads"));
    al.push(String::from_str("mr"));
    al.push(String::from_str("mrs"));
    al.push(String::from_str("mil"));
    al.push(String::from_str("mils"));
    al.push(String::from_str("milliradian"));
    al.push(String::from_str("milliradians"));
    proof {
        assert(al.deep_view() =~= seq!["mrads"@, "mr"@, "mrs"@, "mil"@, "mils"@, "milliradian"@, "milliradians"@]);
    }
    units.push(ratio_unit("Milliradian", "mrad", al, 1, 3));
    let mut al: Vec<String> = Vec::new();
    al.push(String::from_str("minute of arc"));
    al.push(String::from_str("minutes of arc"));
    al.push(String::from_str("minute arc"));
    al.push(String::from_str("minutes arc"));
    al.push(String::from_str("arc minute"));
    al.push(String::from_str("arc minutes"));
    al.push(String::from_str("arcminute"));
    al.push(String::from_str("arcminutes"));
    al.push(String::from_str("arcmin"));
    al.push(String::from_str("arcmins"));
    al.push(String::from_str("ma"));
    al.push(String::from_str("am"));
    proof {
        assert(al.deep_view() =~= seq!["minute of arc"@, "minutes of arc"@, "minute arc"@, "minutes arc"@, "arc minute"@, "arc minutes"@, "arcminute"@, "arcminutes"@, "arcmin"@, "arcmins"@, "ma"@, "am"@]);
    }
    units.push(ratio_unit("Minute of Arc", "arcmin", al, 290888, 9));
    let mut al: Vec<String> = Vec::new();
    al.push(String::from_str("second of arc"));
    al.push(String::from_str("seconds of arc"));
    al.push(String::from_str("second arc"));
    al.push(String::from_str("seconds arc"));
    al.push(String::from_str("arc second"));
    al.push(String::from_str("arc seconds"));
    al.push(String::from_str("arcsecond"));
    al.push(String::from_str("arcseconds"));
    al.push(String::from_str("arcsec"));
    al.push(String::from_str("arcsecs"));
    al.push(String::from_str("sa"));
    al.push(String::from_str("as"));
    proof {
        assert(al.deep_view() =~= seq!["second of arc"@, "seconds of arc"@, "second arc"@, "seconds arc"@, "arc second"@, "arc seconds"@, "arcsecond"@, "arcseconds"@, "arcsec"@, "arcsecs"@, "sa"@, "as"@]);
    }
    units.push(ratio_unit("Second of Arc", "arcsec", al, 48481, 10));
    let f = family_of("PLANE ANGLE", units);
    proof {
        assert(f@.units =~= family_plane_angle_v().units);
        assert(f@ == family_plane_angle_v());
    }
    f
}

#[verifier::rlimit(50)]
fn family_pressure() -> (f: Family)
    ensures
        family_wf(f@),
        family_ok(f),
        f@ == family_pressure_v(),
{
    let mut units: Vec<Unit> = Vec::new();
    let mut al: Vec<String> = Vec::new();
    al.push(String::from_str("pascal"));
    al.push(String::from_str("pascals"));
    proof {
        assert(al.deep_view() =~= seq!["pascal"@, "pascals"@]);
    }
    units.push(ratio_unit("Pascal", "Pa", al, 1, 0));
    let mut al: Vec<String> = Vec::new();
    al.push(String::from_str("bars"));
    proof {
        assert(al.deep_view() =~= seq!["bars"@]);
    }
    units.push(ratio_unit("Bar", "bar", al, 100000, 0));
    let mut al: Vec<String> = Vec::new();
    al.push(String::from_str("psis"));
    al.push(String::from_str("lbf/in2"));
    al.push(String::from_str("pound-force per square inch"));
    proof {
        assert(al.deep_view() =~= seq!["psis"@, "lbf/in2"@, "pound-force per square inch"@]);
    }
    units.push(ratio_unit("Pound-Force per Square Inch", "psi", al, 689476, 2));
    let mut al: Vec<String> = Vec::new();
    al.push(String::from_str("atms"));
    al.push(String::from_str("standard atmosphere"));
    al.push(String::from_str("standard atmospheres"));
    proof {
        assert(al.deep_view() =~= seq!["atms"@, "standard atmosphere"@, "standard atmospheres"@]);
    }
    units.push(ratio_unit("Standard Atmosphere", "atm", al, 101325, 0));
    let mut al: Vec<String> = Vec::new();
    al.push(String::from_str("torrs"));
    proof {
        assert(al.deep_view() =~= seq!["torrs"@]);
    }
    units.push(ratio_unit("Torr", "Torr", al, 133322, 3));
    let f = family_of("PRESSURE", units);
    proof {
        assert(f@.units =~= family_pressure_v().units);
        assert(f@ == family_pressure_v());
    }
    f
}

#[verifier::rlimit(50)]
fn family_temperature() -> (f: Family)
    ensures
        family_wf(f@),
        family_ok(f),
        f@ == family_temperature_v(),
{
    let mut units: Vec<Unit> = Vec::new();
    let mut al: Vec<String> = Vec::new();
    al.push(String::from_str("k"));
    al.push(String::from_str("kelvin"));
    proof {
        assert(al.deep_view() =~= seq!["k"@, "kelvin"@]);
    }
    units.push(formula_unit("Kelvin", "K", al, Scale::Kelvin));
    let mut al: Vec<String> = Vec::new();
    al.push(String::from_str("c"));
    al.push(String::from_str("celsius"));
    proof {
        assert(al.deep_view() =~= seq!["c"@, "celsius"@]);
    }
    units.push(formula_unit("Celsius", "°C", al, Scale::Celsius));
    let mut al: Vec<String> = Vec::new();
    al.push(String::from_str("f"));
    al.push(String::from_str("fahrenheit"));
    proof {
        assert(al.deep_view() =~= seq!["f"@, "fahrenheit"@]);
    }
    units.push(formula_unit("Fahrenheit", "°F", al, Scale::Fahrenheit));
    let f = family_of("TEMPERATURE", units);
    proof {
        assert(f@.units =~= family_temperature_v().units);
        assert(f@ == family_temperature_v());
    }
    f
}

#[verifier::rlimit(50)]
fn family_time() -> (f: Family)
    ensures
        family_wf(f@),
        family_ok(f),
        f@ == family_time_v(),
{
    let mut units: Vec<Unit> = Vec::new();
    let mut al: Vec<String> = Vec::new();
    al.push(String::from_str("sec"));
    al.push(String::from_str("second"));
    al.push(String::from_str("seconds"));
    proof {
        assert(al.deep_view() =~= seq!["sec"@, "second"@, "seconds"@]);
    }
    units.push(ratio_unit("Second", "s", al, 1, 0));
    let mut al: Vec<String> = Vec::new();
    al.push(String::from_str("nanosecond"));
    al.push(String::from_str("nanoseconds"));
    proof {
        assert(al.deep_view() =~= seq!["nanosecond"@, "nanoseconds"@]);
    }
    units.push(ratio_unit("Nanosecond", "ns", al, 1, 9));
    let mut al: Vec<String> = Vec::new();
    al.push(String::from_str("microsecond"));
    al.push(String::from_str("microseconds"));
    proof {
        assert(al.deep_view() =~= seq!["microsecond"@, "microseconds"@]);
    }
    units.push(ratio_unit("Microsecond", "μs", al, 1, 6));
    let mut al: Vec<String> = Vec::new();
    al.push(String::from_str("millisecond"));
    al.push(String::from_str("milliseconds"));
    proof {
        assert(al.deep_view() =~= seq!["millisecond"@, "milliseconds"@]);
    }
    units.push(ratio_unit("Millisecond", "ms", al, 1, 3));
    let mut al: Vec<String> = Vec::new();
    al.push(String::from_str("m"));
    al.push(String::from_str("mins"));
    al.push(String::from_str("minute"));
    al.push(String::from_str("minutes"));
    proof {
        assert(al.deep_view() =~= seq!["m"@, "mins"@, "minute"@, "minutes"@]);
    }
    units.push(ratio_unit("Minute", "min", al, 60, 0));
    let mut al: Vec<String> = Vec::new();
    al.push(String::from_str("h"));
    al.push(String::from_str("hrs"));
    al.push(String::from_str("hour"));
    al.push(String::from_str("hours"));
    proof {
        assert(al.deep_view() =~= seq!["h"@, "hrs"@, "hour"@, "hours"@]);
    }
    units.push(ratio_unit("Hour", "hr", al, 3600, 0));
    let mut al: Vec<String> = Vec::new();
    al.push(String::from_str("day"));
    al.push(String::from_str("days"));
    proof {
        assert(al.deep_view() =~= seq!["day"@, "days"@]);
    }
    units.push(ratio_unit("Day", "d", al, 86400, 0));
    let mut al: Vec<String> = Vec::new();
    al.push(String::from_str("w"));
    al.push(String::from_str("week"));
    al.push(String::from_str("weeks"));
    proof {
        assert(al.deep_view() =~= seq!["w"@, "week"@, "weeks"@]);
    }
    units.push(ratio_unit("Week", "wk", al, 604800, 0));
    let mut al: Vec<String> = Vec::new();
    al.push(String::from_str("m"));
    al.push(String::from_str("month"));
    al.push(String::from_str("months"));
    proof {
        assert(al.deep_view() =~= seq!["m"@, "month"@, "months"@]);
    }
    units.push(ratio_unit("Month", "mth", al, 2629746, 0));
    let mut al: Vec<String> = Vec::new();
    al.push(String::from_str("y"));
    al.push(String::from_str("yrs"));
    al.push(String::from_str("year"));
    al.push(String::from_str("years"));
    proof {
        assert(al.deep_view() =~= seq!["y"@, "yrs"@, "year"@, "years"@]);
    }
    units.push(ratio_unit("Year", "yr", al, 31556952, 0));
    let mut al: Vec<String> = Vec::new();
    al.push(String::from_str("d"));
    al.push(String::from_str("decs"));
    al.push(String::from_str("decade"));
    al.push(String::from_str("decades"));
    proof {
        assert(al.deep_view() =~= seq!["d"@, "decs"@, "decade"@, "decades"@]);
    }
    units.push(ratio_unit("Decade", "dec", al, 315569520, 0));
    let mut al: Vec<String> = Vec::new();
    al.push(String::from_str("c"));
    al.push(String::from_str("century"));
    al.push(String::from_str("centuries"));
    proof {
        assert(al.deep_view() =~= seq!["c"@, "century"@, "centuries"@]);
    }
    units.push(ratio_unit("Century", "cent", al, 3155695200, 0));
    let f = family_of("TIME", units);
    proof {
        assert(f@.units =~= family_time_v().units);
        assert(f@ == family_time_v());
    }
    f
}

#[verifier::rlimit(50)]
fn family_volume() -> (f: Family)
    ensures
        family_wf(f@),
        family_ok(f),
        f@ == family_volume_v(),
{
    let mut units: Vec<Unit> = Vec::new();
    let mut al: Vec<String> = Vec::new();
    al.push(String::from_str("m3"));
    al.push(String::from_str("meter3"));
    al.push(String::from_str("meters3"));
    al.push(String::from_str("metre3"));
    al.push(String::from_str("metres3"));
    al.push(String::from_str("cubic meter"));
    al.push(String::from_str("cubic meters"));
    al.push(String::from_str("cubic metre"));
    al.push(String::from_str("cubic metres"));
    proof {
        assert(al.deep_view() =~= seq!["m3"@, "meter3"@, "meters3"@, "metre3"@, "metres3"@, "cubic meter"@, "cubic meters"@, "cubic metre"@, "cubic metres"@]);
    }
    units.push(ratio_unit("Cubic Meter", "m³", al, 1, 0));
    let mut al: Vec<String> = Vec::new();
    al.push(String::from_str("liter"));
    al.push(String::from_str("liters"));
    al.push(String::from_str("litre"));
    al.push(String::from_str("litres"));
    proof {
        assert(al.deep_view() =~= seq!["liter"@, "liters"@, "litre"@, "litres"@]);
    }
    units.push(ratio_unit("Liter", "l", al, 1, 3));
    let mut al: Vec<String> = Vec::new();
    al.push(String::from_str("milliliter"));
    al.push(String::from_str("milliliters"));
    al.push(String::from_str("millilitre"));
    al.push(String::from_str("millilitres"));
    proof {
        assert(al.deep_view() =~= seq!["milliliter"@, "milliliters"@, "millilitre"@, "millilitres"@]);
    }
    units.push(ratio_unit("Milliliter", "ml", al, 1, 6));
    let mut al: Vec<String> = Vec::new();
    al.push(String::from_str("gallon"));
    al.push(String::from_str("gallons"));
    proof {
        assert(al.deep_view() =~= seq!["gallon"@, "gallons"@]);
    }
    let mut vs: Vec<Variant> = Vec::new();
    vs.push(variant_of("Imperial", 454609, 8));
    vs.push(variant_of("US liquid", 378541, 8));
    proof {
        reveal_strlit("Imperial");
        assert(("Imperial")@.len() == 8);
        assert(("Imperial")@[0] == 'I');
        reveal_strlit("US liquid");
        assert(("US liquid")@.len() == 9);
        assert(("US liquid")@[0] == 'U');
        assert(vs@[0]@.label != vs@[1]@.label);
        assert(vs@.map_values(|v: Variant| v@) =~= seq![variant_v("Imperial"@, 454609, 8), variant_v("US liquid"@, 378541, 8)]);
    }
    units.push(multi_ratio_unit("Gallon • Imperial / US liquid", "gal", al, vs));
    let mut al: Vec<String> = Vec::new();
    al.push(String::from_str("quart"));
    al.push(String::from_str("quarts"));
    proof {
        assert(al.deep_view() =~= seq!["quart"@, "quarts"@]);
    }
    let mut vs: Vec<Variant> = Vec::new();
    vs.push(variant_of("Imperial", 113652, 8));
    vs.push(variant_of("US liquid", 946353, 9));
    proof {
        reveal_strlit("Imperial");
        assert(("Imperial")@.len() == 8);
        assert(("Imperial")@[0] == 'I');
        reveal_strlit("US liquid");
        assert(("US liquid")@.len() == 9);
        assert(("US liquid")@[0] == 'U');
        assert(vs@[0]@.label != vs@[1]@.label);
        assert(vs@.map_values(|v: Variant| v@) =~= seq![variant_v("Imperial"@, 113652, 8), variant_v("US liquid"@, 946353, 9)]);
    }
    units.push(multi_ratio_unit("Quart • Imperial / US liquid", "qt", al, vs));
    let mut al: Vec<String> = Vec::new();
    al.push(String::from_str("pint"));
    al.push(String::from_str("pints"));
    proof {
        assert(al.deep_view() =~= seq!["pint"@, "pints"@]);
    }
    let mut vs: Vec<Variant> = Vec::new();
    vs.push(variant_of("Imperial", 568261, 9));
    vs.push(variant_of("US liquid", 473176, 9));
    proof {
        reveal_strlit("Imperial");
        assert(("Imperial")@.len() == 8);
        assert(("Imperial")@[0] == 'I');
        reveal_strlit("US liquid");
        assert(("US liquid")@.len() == 9);
        assert(("US liquid")@[0] == 'U');
        assert(vs@[0]@.label != vs@[1]@.label);
        assert(vs@.map_values(|v: Variant| v@) =~= seq![variant_v("Imperial"@, 568261, 9), variant_v("US liquid"@, 473176, 9)]);
    }
    units.push(multi_ratio_unit("Pint • Imperial / US liquid", "pt", al, vs));
    let mut al: Vec<String> = Vec::new();
    al.push(String::from_str("cup"));
    al.push(String::from_str("cups"));
    proof {
        assert(al.deep_view() =~= seq!["cup"@, "cups"@]);
    }
    let mut vs: Vec<Variant> = Vec::new();
    vs.push(variant_of("Imperial", 284131, 9));
    vs.push(variant_of("US legal", 24, 5));
    proof {
        reveal_strlit("Imperial");
        assert(("Imperial")@.len() == 8);
        assert(("Imperial")@[0] == 'I');
        reveal_strlit("US legal");
        assert(("US legal")@.len() == 8);
        assert(("US legal")@[0] == 'U');
        assert(vs@[0]@.label != vs@[1]@.label);
        assert(vs@.map_values(|v: Variant| v@) =~= seq![variant_v("Imperial"@, 284131, 9), variant_v("US legal"@, 24, 5)]);
    }
    units.push(multi_ratio_unit("Cup • Imperial / US legal", "c", al, vs));
    let mut al: Vec<String> = Vec::new();
    al.push(String::from_str("floz"));
    al.push(String::from_str("fluid ounce"));
    al.push(String::from_str("fluid ounces"));
    proof {
        assert(al.deep_view() =~= seq!["floz"@, "fluid ounce"@, "fluid ounces"@]);
    }
    let mut vs: Vec<Variant> = Vec::new();
    vs.push(variant_of("Imperial", 28413, 9));
    vs.push(variant_of("US", 29574, 9));
    proof {
        reveal_strlit("Imperial");
        assert(("Imperial")@.len() == 8);
        assert(("Imperial")@[0] == 'I');
        reveal_strlit("US");
        assert(("US")@.len() == 2);
        assert(("US")@[0] == 'U');
        assert(vs@[0]@.label != vs@[1]@.label);
        assert(vs@.map_values(|v: Variant| v@) =~= seq![variant_v("Imperial"@, 28413, 9), variant_v("US"@, 29574, 9)]);
    }
    units.push(multi_ratio_unit("Fluid Ounce • Imperial / US", "fl oz", al, vs));
    let mut al: Vec<String> = Vec::new();
    al.push(String::from_str("tablespoon"));
    al.push(String::from_str("tablespoons"));
    proof {
        assert(al.deep_view() =~= seq!["tablespoon"@, "tablespoons"@]);
    }
    let mut vs: Vec<Variant> = Vec::new();
    vs.push(variant_of("Imperial", 17758, 9));
    vs.push(variant_of("US", 14787, 9));
    proof {
        reveal_strlit("Imperial");
        assert(("Imperial")@.len() == 8);
        assert(("Imperial")@[0] == 'I');
        reveal_strlit("US");
        assert(("US")@.len() == 2);
        assert(("US")@[0] == 'U');
        assert(vs@[0]@.label != vs@[1]@.label);
        assert(vs@.map_values(|v: Variant| v@) =~= seq![variant_v("Imperial"@, 17758, 9), variant_v("US"@, 14787, 9)]);
    }
    units.push(multi_ratio_unit("Tablespoon • Imperial / US", "tbsp", al, vs));
    let mut al: Vec<String> = Vec::new();
    al.push(String::from_str("teaspoon"));
    al.push(String::from_str("teaspoons"));
    proof {
        assert(al.deep_view() =~= seq!["teaspoon"@, "teaspoons"@]);
    }
    let mut vs: Vec<Variant> = Vec::new();
    vs.push(variant_of("Imperial", 59194, 10));
    vs.push(variant_of("US", 49289, 10));
    proof {
        reveal_strlit("Imperial");
        assert(("Imperial")@.len() == 8);
        assert(("Imperial")@[0] == 'I');
        reveal_strlit("US");
        assert(("US")@.len() == 2);
        assert(("US")@[0] == 'U');
        assert(vs@[0]@.label != vs@[1]@.label);
        assert(vs@.map_values(|v: Variant| v@) =~= seq![variant_v("Imperial"@, 59194, 10), variant_v("US"@, 49289, 10)]);
    }
    units.push(multi_ratio_unit("Teaspoon • Imperial / US", "tsp", al, vs));
    let mut al: Vec<String> = Vec::new();
    al.push(String::from_str("ft3"));
    al.push(String::from_str("cu ft"));
    al.push(String::from_str("cubic foot"));
    al.push(String::from_str("cubic feet"));
    proof {
        assert(al.deep_view() =~= seq!["ft3"@, "cu ft"@, "cubic foot"@, "cubic feet"@]);
    }
    units.push(ratio_unit("Cubic Foot", "ft³", al, 283168, 7));
    let mut al: Vec<String> = Vec::new();
    al.push(String::from_str("in3"));
    al.push(String::from_str("cu in"));
    al.push(String::from_str("cubic inch"));
    al.push(String::from_str("cubic inches"));
    proof {
        assert(al.deep_view() =~= seq!["in3"@, "cu in"@, "cubic inch"@, "cubic inches"@]);
    }
    units.push(ratio_unit("Cubic Inch", "in³", al, 16387, 9));
    let f = family_of("VOLUME", units);
    proof {
        assert(f@.units =~= family_volume_v().units);
        assert(f@ == family_volume_v());
    }
    f
}

/// The whole built-in table at the model level, family by family in
/// declaration order, each unit with its exact name, abbreviation,
/// aliases, ratio variants and formula scale.
pub open spec fn std_catalog_v() -> CatalogV {
    CatalogV {
        families: seq![
            family_area_v(),
            family_digital_storage_v(),
            family_energy_v(),
            family_frequency_v(),
            family_length_v(),
            family_mass_v(),
            family_plane_angle_v(),
            family_pressure_v(),
            family_temperature_v(),
            family_time_v(),
            family_volume_v(),
        ],
    }
}

/// The full built-in table of unit definitions, in declaration order;
/// its view is exactly `std_catalog_v`.
#[verifier::rlimit(50)]
pub fn standard_catalog() -> (c: Catalog)
    ensures
        catalog_wf(c@),
        catalog_ok(c),
        c@ == std_catalog_v(),
{
    let mut families: Vec<Family> = Vec::new();
    families.push(family_area());
    families.push(family_digital_storage());
    families.push(family_energy());
    families.push(family_frequency());
    families.push(family_length());
    families.push(family_mass());
    families.push(family_plane_angle());
    families.push(family_pressure());
    families.push(family_temperature());
    families.push(family_time());
    families.push(family_volume());
    let c = Catalog { families };
    proof {
        assert(c@.families =~= std_catalog_v().families);
        assert(c@ == std_catalog_v());
    }
    c
}

} // verus!
