use vstd::prelude::*;
use vstd::string::*;
use crate::pixel::Rgba;

verus! {

/// A nominal 2-D placement point on the template, in milli-pixels.
#[derive(Clone, Copy, PartialEq, Eq, Structural, Debug)]
pub struct FieldPosition {
    pub x_milli: i64,
    pub y_milli: i64,
}

/// The closed set of logical text fields the layout table knows. Modeling
/// the table as a total function over this enumeration removes lookup-miss
/// ambiguity: a field outside the document simply has an empty anchor list.
#[derive(Clone, Copy, PartialEq, Eq, Structural, Debug)]
pub enum FieldId {
    Name,
    Address,
    Number,
    Issuer,
    IssuerPosition,
    IssuerInitials,
    Year,
    Time,
}

/// Per-field randomization ranges, each half-open, in milli-pixels:
/// horizontal jitter, vertical jitter, and font size.
#[derive(Clone, Copy, PartialEq, Eq, Structural, Debug)]
pub struct JitterRanges {
    pub dx_lo: i64,
    pub dx_hi: i64,
    pub dy_lo: i64,
    pub dy_hi: i64,
    pub size_lo: i64,
    pub size_hi: i64,
}

/// The fixed anchor list of each field: where on the template each
/// occurrence of the field is printed.
pub open spec fn spec_field_positions(f: FieldId) -> Seq<FieldPosition> {
    match f {
        FieldId::Name => seq![
            FieldPosition { x_milli: 255000, y_milli: 22000 },
            FieldPosition { x_milli: 365000, y_milli: 975000 },
        ],
        FieldId::Address => seq![FieldPosition { x_milli: 305000, y_milli: 70000 }],
        FieldId::Number => seq![
            FieldPosition { x_milli: 560000, y_milli: 135000 },
            FieldPosition { x_milli: 448000, y_milli: 350000 },
        ],
        FieldId::Issuer => seq![
            FieldPosition { x_milli: 305000, y_milli: 250000 },
            FieldPosition { x_milli: 265000, y_milli: 1020000 },
        ],
        FieldId::IssuerPosition => seq![FieldPosition { x_milli: 180000, y_milli: 730000 }],
        FieldId::IssuerInitials => seq![FieldPosition { x_milli: 732000, y_milli: 730000 }],
        FieldId::Year => seq![
            FieldPosition { x_milli: 367000, y_milli: 352000 },
            FieldPosition { x_milli: 676000, y_milli: 453000 },
            FieldPosition { x_milli: 392000, y_milli: 843000 },
            FieldPosition { x_milli: 483000, y_milli: 1096000 },
            FieldPosition { x_milli: 836000, y_milli: 1096000 },
        ],
        FieldId::Time => seq![FieldPosition { x_milli: 760000, y_milli: 457000 }],
    }
}

/// The per-field jitter and size ranges.
pub open spec fn spec_field_jitter(f: FieldId) -> JitterRanges {
    match f {
        FieldId::Name => JitterRanges {
            dx_lo: -2000i64,
            dx_hi: 3000,
            dy_lo: -2000i64,
            dy_hi: 2000,
            size_lo: 26000,
            size_hi: 38000,
        },
        FieldId::Address => JitterRanges {
            dx_lo: -2000i64,
            dx_hi: 8000,
            dy_lo: -1000i64,
            dy_hi: 6000,
            size_lo: 29000,
            size_hi: 34000,
        },
        FieldId::Number => JitterRanges {
            dx_lo: -2000i64,
            dx_hi: 5000,
            dy_lo: -2200i64,
            dy_hi: 1000,
            size_lo: 36000,
            size_hi: 48000,
        },
        FieldId::Issuer => JitterRanges {
            dx_lo: -2000i64,
            dx_hi: 3000,
            dy_lo: -2000i64,
            dy_hi: 2000,
            size_lo: 26000,
            size_hi: 38000,
        },
        FieldId::IssuerPosition => JitterRanges {
            dx_lo: -12000i64,
            dx_hi: 5000,
            dy_lo: -4000i64,
            dy_hi: 4000,
            size_lo: 30000,
            size_hi: 36000,
        },
        FieldId::IssuerInitials => JitterRanges {
            dx_lo: -2000i64,
            dx_hi: 1400,
            dy_lo: -4000i64,
            dy_hi: 4000,
            size_lo: 31000,
            size_hi: 34000,
        },
        FieldId::Year => JitterRanges {
            dx_lo: -1700i64,
            dx_hi: 1700,
            dy_lo: -1200i64,
            dy_hi: 1200,
            size_lo: 32000,
            size_hi: 37000,
        },
        FieldId::Time => JitterRanges {
            dx_lo: -2500i64,
            dx_hi: 8000,
            dy_lo: -2200i64,
            dy_hi: 2200,
            size_lo: 27000,
            size_hi: 34000,
        },
    }
}

/// The fixed anchor list for the signature stamp.
pub open spec fn spec_sign_positions() -> Seq<FieldPosition> {
    seq![FieldPosition { x_milli: 618000, y_milli: 716000 }]
}

/// The fixed foreground ink color used for all text.
pub open spec fn spec_text_color() -> Rgba {
    Rgba { r: 0, g: 50, b: 150, a: 255 }
}

/// Every anchor and every jitter range of the layout tables is small: the
/// anchors sit within two million milli-pixels, the jitter within twenty
/// thousand, and each range is non-empty with sizes positive and bounded.
pub proof fn lemma_field_tables_bounded(f: FieldId)
    ensures
        forall|i: int|
            0 <= i < spec_field_positions(f).len() ==> {
                let p = #[trigger] spec_field_positions(f)[i];
                0 <= p.x_milli <= 2000000 && 0 <= p.y_milli <= 2000000
            },
        ({
            let j = spec_field_jitter(f);
            -20000 <= j.dx_lo < j.dx_hi <= 20000 && -20000 <= j.dy_lo < j.dy_hi <= 20000 && 0
                < j.size_lo < j.size_hi <= 100000
        }),
{
    match f {
        FieldId::Name => {},
        FieldId::Address => {},
        FieldId::Number => {},
        FieldId::Issuer => {},
        FieldId::IssuerPosition => {},
        FieldId::IssuerInitials => {},
        FieldId::Year => {},
        FieldId::Time => {},
    }
}

/// Look up the anchors at which a field is printed; an absent field yields
/// the empty list, not an error.
pub fn field_positions(f: FieldId) -> (v: Vec<FieldPosition>)
    ensures
        v@ == spec_field_positions(f),
{
    let mut v: Vec<FieldPosition> = Vec::new();
    match f {
        FieldId::Name => {
            v.push(FieldPosition { x_milli: 255000, y_milli: 22000 });
            v.push(FieldPosition { x_milli: 365000, y_milli: 975000 });
        },
        FieldId::Address => {
            v.push(FieldPosition { x_milli: 305000, y_milli: 70000 });
        },
        FieldId::Number => {
            v.push(FieldPosition { x_milli: 560000, y_milli: 135000 });
            v.push(FieldPosition { x_milli: 448000, y_milli: 350000 });
        },
        FieldId::Issuer => {
            v.push(FieldPosition { x_milli: 305000, y_milli: 250000 });
            v.push(FieldPosition { x_milli: 265000, y_milli: 1020000 });
        },
        FieldId::IssuerPosition => {
            v.push(FieldPosition { x_milli: 180000, y_milli: 730000 });
        },
        FieldId::IssuerInitials => {
            v.push(FieldPosition { x_milli: 732000, y_milli: 730000 });
        },
        FieldId::Year => {
            v.push(FieldPosition { x_milli: 367000, y_milli: 352000 });
            v.push(FieldPosition { x_milli: 676000, y_milli: 453000 });
            v.push(FieldPosition { x_milli: 392000, y_milli: 843000 });
            v.push(FieldPosition { x_milli: 483000, y_milli: 1096000 });
            v.push(FieldPosition { x_milli: 836000, y_milli: 1096000 });
        },
        FieldId::Time => {
            v.push(FieldPosition { x_milli: 760000, y_milli: 457000 });
        },
    }
    proof {
        assert(v@ =~= spec_field_positions(f));
    }
    v
}

/// The jitter and size ranges for a field.
pub fn field_jitter(f: FieldId) -> (j: JitterRanges)
    ensures
        j == spec_field_jitter(f),
{
    match f {
        FieldId::Name => JitterRanges {
            dx_lo: -2000,
            dx_hi: 3000,
            dy_lo: -2000,
            dy_hi: 2000,
            size_lo: 26000,
            size_hi: 38000,
        },
        FieldId::Address => JitterRanges {
            dx_lo: -2000,
            dx_hi: 8000,
            dy_lo: -1000,
            dy_hi: 6000,
            size_lo: 29000,
            size_hi: 34000,
        },
        FieldId::Number => JitterRanges {
            dx_lo: -2000,
            dx_hi: 5000,
            dy_lo: -2200,
            dy_hi: 1000,
            size_lo: 36000,
            size_hi: 48000,
        },
        FieldId::Issuer => JitterRanges {
            dx_lo: -2000,
            dx_hi: 3000,
            dy_lo: -2000,
            dy_hi: 2000,
            size_lo: 26000,
            size_hi: 38000,
        },
        FieldId::IssuerPosition => JitterRanges {
            dx_lo: -12000,
            dx_hi: 5000,
            dy_lo: -4000,
            dy_hi: 4000,
            size_lo: 30000,
            size_hi: 36000,
        },
        FieldId::IssuerInitials => JitterRanges {
            dx_lo: -2000,
            dx_hi: 1400,
            dy_lo: -4000,
            dy_hi: 4000,
            size_lo: 31000,
            size_hi: 34000,
        },
        FieldId::Year => JitterRanges {
            dx_lo: -1700,
            dx_hi: 1700,
            dy_lo: -1200,
            dy_hi: 1200,
            size_lo: 32000,
            size_hi: 37000,
        },
        FieldId::Time => JitterRanges {
            dx_lo: -2500,
            dx_hi: 8000,
            dy_lo: -2200,
            dy_hi: 2200,
            size_lo: 27000,
            size_hi: 34000,
        },
    }
}

/// The anchors for the signature stamp.
pub fn sign_positions() -> (v: Vec<FieldPosition>)
    ensures
        v@ == spec_sign_positions(),
{
    let mut v: Vec<FieldPosition> = Vec::new();
    v.push(FieldPosition { x_milli: 618000, y_milli: 716000 });
    proof {
        assert(v@ =~= spec_sign_positions());
    }
    v
}

/// The text ink color.
pub fn text_color() -> (c: Rgba)
    ensures
        c == spec_text_color(),
{
    Rgba { r: 0, g: 50, b: 150, a: 255 }
}

/// The fixed issuer-position line of the layout.
pub fn issuer_position_text() -> (s: String)
    ensures
        s@ == "Президент України"@,
{
    String::from_str("Президент України")
}

/// The fixed issuer-initials line of the layout.
pub fn issuer_initials_text() -> (s: String)
    ensures
        s@ == "Зеленський В. О."@,
{
    String::from_str("Зеленський В. О.")
}

} // verus!
