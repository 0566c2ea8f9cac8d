use vstd::prelude::*;

verus! {

/// Smallest offset in use anywhere: -12:00 (Baker Island), in minutes.
pub const MIN_TOTAL_MINUTES: i16 = -12 * 60;

/// Largest offset in use anywhere: +14:00 (Line Islands), in minutes.
pub const MAX_TOTAL_MINUTES: i16 = 14 * 60;

/// Whether `m` minutes lies in the range of real-world offsets, -12:00..=+14:00.
pub open spec fn in_range(m: int) -> bool {
    MIN_TOTAL_MINUTES <= m <= MAX_TOTAL_MINUTES
}

/// Why a piece of text is not an offset.
#[derive(Debug, Clone, Copy, PartialEq, Eq, Structural)]
pub enum OffsetError {
    Empty,
    OutOfRange,
    InvalidHours,
    InvalidMinutes,
    UnrecognizedFormat,
}

/// A UTC offset, stored as signed minutes, so that `-00:00` and `+00:00`
/// are the same value (integers have no negative zero).
#[derive(Debug, Clone, Copy, PartialEq, Eq, Structural)]
pub struct Offset {
    total_minutes: i16,
}

impl View for Offset {
    type V = int;

    /// An offset is its signed number of minutes east of UTC.
    closed spec fn view(&self) -> int {
        self.total_minutes as int
    }
}

/// Two offsets are the same value exactly when they have the same minutes.
pub proof fn lemma_offset_eq_iff_minutes_eq(a: Offset, b: Offset)
    ensures
        (a == b) <==> (a@ == b@),
{
}

/// The outcome of building an offset from `m` minutes: the offset itself
/// when `m` is in range, `OutOfRange` otherwise.
pub open spec fn offset_from_minutes(m: int) -> Result<int, OffsetError> {
    if in_range(m) {
        Ok(m)
    } else {
        Err(OffsetError::OutOfRange)
    }
}

/// A result of the library, seen through the view of its offset.
pub open spec fn result_view(r: Result<Offset, OffsetError>) -> Result<int, OffsetError> {
    match r {
        Ok(o) => Ok(o@),
        Err(e) => Err(e),
    }
}

pub open spec fn abs(m: int) -> int {
    if m < 0 {
        -m
    } else {
        m
    }
}

/// The ASCII digit for `d` in `0..=9`.
pub open spec fn digit_char(d: int) -> char {
    ('0' as int + d) as char
}

/// The canonical text of an offset of `m` minutes: `+HH:MM` or `-HH:MM`,
/// with `+` for zero.
pub open spec fn canonical_text(m: int) -> Seq<char> {
    let h = abs(m) / 60;
    let mm = abs(m) % 60;
    seq![
        if m < 0 { '-' } else { '+' },
        digit_char(h / 10),
        digit_char(h % 10),
        ':',
        digit_char(mm / 10),
        digit_char(mm % 10),
    ]
}

/// The message that describes an error.
pub open spec fn error_message(e: OffsetError) -> Seq<char> {
    match e {
        OffsetError::Empty => "input is empty"@,
        OffsetError::OutOfRange => "offset falls outside -12:00..+14:00"@,
        OffsetError::InvalidHours => "hour part is too large to be a real offset"@,
        OffsetError::InvalidMinutes => "minute part must be between 00 and 59"@,
        OffsetError::UnrecognizedFormat => "not a recognized offset or timezone abbreviation"@,
    }
}

impl Offset {
    #[verifier::type_invariant]
    spec fn within_range(self) -> bool {
        in_range(self.total_minutes as int)
    }

    /// Builds an offset of `total_minutes` minutes; offsets outside
    /// -12:00..=+14:00 are refused with `OutOfRange`.
    pub fn from_minutes(total_minutes: i16) -> (r: Result<Self, OffsetError>)
        ensures
            result_view(r) == offset_from_minutes(total_minutes as int),
    {
        if total_minutes < MIN_TOTAL_MINUTES || total_minutes > MAX_TOTAL_MINUTES {
            return Err(OffsetError::OutOfRange);
        }
        Ok(Offset { total_minutes })
    }

    /// Signed minutes east of UTC.
    pub fn total_minutes(&self) -> (m: i16)
        ensures
            m as int == self@,
            in_range(m as int),
    {
        proof {
            use_type_invariant(self);
        }
        self.total_minutes
    }

    /// Whole hours of the offset's magnitude.
    pub fn hours(&self) -> (h: i16)
        ensures
            h as int == abs(self@) / 60,
            0 <= h <= 14,
    {
        proof {
            use_type_invariant(self);
        }
        let a: i16 = if self.total_minutes < 0 {
            -self.total_minutes
        } else {
            self.total_minutes
        };
        a / 60
    }

    /// Minutes past the whole hour of the offset's magnitude.
    pub fn minutes(&self) -> (m: i16)
        ensures
            m as int == abs(self@) % 60,
            0 <= m < 60,
    {
        proof {
            use_type_invariant(self);
        }
        let a: i16 = if self.total_minutes < 0 {
            -self.total_minutes
        } else {
            self.total_minutes
        };
        a % 60
    }

    /// Whether the offset lies west of UTC; zero is not negative.
    pub fn is_negative(&self) -> (b: bool)
        ensures
            b == (self@ < 0),
    {
        self.total_minutes < 0
    }

    /// The canonical text of the offset, `+HH:MM` or `-HH:MM`.
    pub fn to_string(&self) -> (s: String)
        ensures
            s@ == canonical_text(self@),
    {
        let h = self.hours();
        let m = self.minutes();
        let mut s = String::new();
        if self.is_negative() {
            s.append(sign_text(true));
        } else {
            s.append(sign_text(false));
        }
        s.append(digit_text(h / 10));
        s.append(digit_text(h % 10));
        s.append(colon_text());
        s.append(digit_text(m / 10));
        s.append(digit_text(m % 10));
        assert(s@ =~= canonical_text(self@));
        s
    }
}

impl OffsetError {
    /// A sentence that says what is wrong with the input.
    pub fn to_string(&self) -> (s: String)
        ensures
            s@ == error_message(*self),
    {
        match self {
            OffsetError::Empty => String::from_str("input is empty"),
            OffsetError::OutOfRange => String::from_str("offset falls outside -12:00..+14:00"),
            OffsetError::InvalidHours => String::from_str(
                "hour part is too large to be a real offset",
            ),
            OffsetError::InvalidMinutes => String::from_str(
                "minute part must be between 00 and 59",
            ),
            OffsetError::UnrecognizedFormat => String::from_str(
                "not a recognized offset or timezone abbreviation",
            ),
        }
    }
}

fn sign_text(negative: bool) -> (s: &'static str)
    ensures
        s@ == seq![if negative { '-' } else { '+' }],
{
    if negative {
        proof {
            reveal_strlit("-");
        }
        "-"
    } else {
        proof {
            reveal_strlit("+");
        }
        "+"
    }
}

fn colon_text() -> (s: &'static str)
    ensures
        s@ == seq![':'],
{
    proof {
        reveal_strlit(":");
    }
    ":"
}

fn digit_text(d: i16) -> (s: &'static str)
    requires
        0 <= d <= 9,
    ensures
        s@ == seq![digit_char(d as int)],
{
    proof {
        reveal_strlit("0");
        reveal_strlit("1");
        reveal_strlit("2");
        reveal_strlit("3");
        reveal_strlit("4");
        reveal_strlit("5");
        reveal_strlit("6");
        reveal_strlit("7");
        reveal_strlit("8");
        reveal_strlit("9");
    }
    if d == 0 {
        "0"
    } else if d == 1 {
        "1"
    } else if d == 2 {
        "2"
    } else if d == 3 {
        "3"
    } else if d == 4 {
        "4"
    } else if d == 5 {
        "5"
    } else if d == 6 {
        "6"
    } else if d == 7 {
        "7"
    } else if d == 8 {
        "8"
    } else {
        "9"
    }
}

} // verus!
