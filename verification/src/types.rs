//! Time-of-day values: the primitive the whole interval algebra is built on.

use vstd::prelude::*;

verus! {

/// A time of day, in hours and minutes. The value 24:00 is a sentinel
/// meaning "end of day"; it is used only as an interval endpoint.
#[derive(PartialEq, Eq, Structural, PartialOrd, Ord, Debug, Clone, Copy, Hash)]
pub struct TimeOfDay {
    pub hours: u8,
    pub minutes: u8,
}

impl TimeOfDay {
    /// A time of day is either an ordinary wall-clock minute or the
    /// end-of-day sentinel 24:00.
    pub open spec fn wf(self) -> bool {
        (self.hours <= 23 && self.minutes <= 59) || (self.hours == 24 && self.minutes == 0)
    }

    /// Total order on times of day, by (hours, minutes).
    pub open spec fn spec_le(self, other: TimeOfDay) -> bool {
        self.hours < other.hours || (self.hours == other.hours && self.minutes <= other.minutes)
    }

    /// Strict order on times of day.
    pub open spec fn spec_lt(self, other: TimeOfDay) -> bool {
        self.spec_le(other) && self != other
    }

    /// Minutes elapsed since 00:00.
    pub open spec fn spec_minutes(self) -> int {
        self.hours * 60 + self.minutes
    }

    pub fn le(self, other: TimeOfDay) -> (r: bool)
        ensures
            r == self.spec_le(other),
    {
        self.hours < other.hours || (self.hours == other.hours && self.minutes <= other.minutes)
    }

    pub fn lt(self, other: TimeOfDay) -> (r: bool)
        ensures
            r == (self.spec_le(other) && self != other),
    {
        self.hours < other.hours || (self.hours == other.hours && self.minutes < other.minutes)
    }

    /// Minutes elapsed since 00:00; at most 24 * 60.
    pub fn as_minutes(&self) -> (r: u16)
        requires
            self.wf(),
        ensures
            r == self.spec_minutes(),
            r <= 1440,
    {
        self.minutes as u16 + self.hours as u16 * 60
    }

    /// Rebuild a time of day from a count of minutes. Mirrors the original
    /// behaviour exactly: minutes wrap at 60 and hours wrap at 23.
    pub fn from_minutes(minutes: u16) -> (r: TimeOfDay)
        ensures
            r.minutes == minutes % 60,
            r.hours == (minutes / 60) % 23,
            r.wf(),
    {
        let mm: u8 = (minutes % 60) as u8;
        let hh: u8 = ((minutes / 60) % 23) as u8;
        TimeOfDay { hours: hh, minutes: mm }
    }
}

/// The character for one decimal digit.
pub open spec fn digit_char(d: int) -> char {
    if d == 0 {
        '0'
    } else if d == 1 {
        '1'
    } else if d == 2 {
        '2'
    } else if d == 3 {
        '3'
    } else if d == 4 {
        '4'
    } else if d == 5 {
        '5'
    } else if d == 6 {
        '6'
    } else if d == 7 {
        '7'
    } else if d == 8 {
        '8'
    } else {
        '9'
    }
}

fn digit_str(d: u8) -> (r: &'static str)
    requires
        d <= 9,
    ensures
        r@ =~= seq![digit_char(d as int)],
{
    let r = match d {
        0 => "0",
        1 => "1",
        2 => "2",
        3 => "3",
        4 => "4",
        5 => "5",
        6 => "6",
        7 => "7",
        8 => "8",
        _ => "9",
    };
    proof {
        reveal_strlit("0");
        reveal_strlit("1");
        reveal_strlit("2");
        reveal_strlit("3");
        reveal_strlit("4");
        reveal_strlit("5");
        reveal_strlit("6");
        reveal_strlit("7");
        reveal_strlit("8");
        reveal_strlit("9");
    }
    r
}

impl TimeOfDay {
    /// Render the time as `HH:MM`, two digits each, as the firewall's
    /// time-range matches want it.
    pub fn as_iptables_arg(&self) -> (r: String)
        requires
            self.wf(),
        ensures
            r@ =~= seq![
                digit_char(self.hours as int / 10),
                digit_char(self.hours as int % 10),
                ':',
                digit_char(self.minutes as int / 10),
                digit_char(self.minutes as int % 10),
            ],
    {
        let mut out = String::new();
        out.append(digit_str(self.hours / 10));
        out.append(digit_str(self.hours % 10));
        proof {
            reveal_strlit(":");
        }
        out.append(":");
        out.append(digit_str(self.minutes / 10));
        out.append(digit_str(self.minutes % 10));
        out
    }
}

/// The first minute of the day, 00:00.
pub fn day_begins() -> (r: TimeOfDay)
    ensures
        r == (TimeOfDay { hours: 0, minutes: 0 }),
{
    TimeOfDay { hours: 0, minutes: 0 }
}

/// The end-of-day sentinel, 24:00.
pub fn day_ends() -> (r: TimeOfDay)
    ensures
        r == (TimeOfDay { hours: 24, minutes: 0 }),
{
    TimeOfDay { hours: 24, minutes: 0 }
}

/// Why a time-of-day or day-of-week token was rejected.
#[derive(PartialEq, Eq, Structural, Debug, Clone, Copy)]
pub enum ParseError {
    /// No four-digit military time (with optional colon) occurs in the text.
    NoMatch,
    /// The token does not have the expected length.
    BadLength,
    /// The hour is above 23 and the token is not exactly 24:00.
    InvalidHours,
    /// The minute is above 59.
    InvalidMinutes,
    /// The text names no day of the week.
    UnknownDay,
}

/// The numeric value of an ASCII digit, or -1 for any other character.
pub open spec fn digit_val(c: char) -> int {
    if c == '0' {
        0
    } else if c == '1' {
        1
    } else if c == '2' {
        2
    } else if c == '3' {
        3
    } else if c == '4' {
        4
    } else if c == '5' {
        5
    } else if c == '6' {
        6
    } else if c == '7' {
        7
    } else if c == '8' {
        8
    } else if c == '9' {
        9
    } else {
        -1
    }
}

fn digit_value(c: char) -> (r: Option<u8>)
    ensures
        r is Some <==> digit_val(c) >= 0,
        r is Some ==> r->0 == digit_val(c),
{
    match c {
        '0' => Some(0),
        '1' => Some(1),
        '2' => Some(2),
        '3' => Some(3),
        '4' => Some(4),
        '5' => Some(5),
        '6' => Some(6),
        '7' => Some(7),
        '8' => Some(8),
        '9' => Some(9),
        _ => None,
    }
}

/// A military time reading `HHMM` begins at position `i`: an hour digit
/// pair starting with 0, 1 or 2, then a minute digit pair starting with 0
/// to 5.
pub open spec fn plain_match_at(s: Seq<char>, i: int) -> bool {
    &&& 0 <= i
    &&& i + 4 <= s.len()
    &&& 0 <= digit_val(s[i]) <= 2
    &&& 0 <= digit_val(s[i + 1])
    &&& 0 <= digit_val(s[i + 2]) <= 5
    &&& 0 <= digit_val(s[i + 3])
}

/// A military time reading `HH:MM` begins at position `i`.
pub open spec fn colon_match_at(s: Seq<char>, i: int) -> bool {
    &&& 0 <= i
    &&& i + 5 <= s.len()
    &&& 0 <= digit_val(s[i]) <= 2
    &&& 0 <= digit_val(s[i + 1])
    &&& s[i + 2] == ':'
    &&& 0 <= digit_val(s[i + 3]) <= 5
    &&& 0 <= digit_val(s[i + 4])
}

pub open spec fn any_match_at(s: Seq<char>, i: int) -> bool {
    plain_match_at(s, i) || colon_match_at(s, i)
}

/// The position of the leftmost military time in `s` at or after `i`.
pub open spec fn match_from(s: Seq<char>, i: int) -> Option<int>
    decreases s.len() - i when 0 <= i <= s.len()
{
    if any_match_at(s, i) {
        Some(i)
    } else if i >= s.len() {
        None
    } else {
        match_from(s, i + 1)
    }
}

/// The hour read at a match position.
pub open spec fn hour_at(s: Seq<char>, i: int) -> int {
    digit_val(s[i]) * 10 + digit_val(s[i + 1])
}

/// The minute read at a match position: right after the hour pair, or one
/// character further when a colon separates the two pairs.
pub open spec fn minute_at(s: Seq<char>, i: int) -> int {
    if colon_match_at(s, i) {
        digit_val(s[i + 3]) * 10 + digit_val(s[i + 4])
    } else {
        digit_val(s[i + 2]) * 10 + digit_val(s[i + 3])
    }
}

impl TimeOfDay {
    /// Parse a time of day from free text holding a military time such as
    /// `"1135"` or `"11:35"`, reading the leftmost such group. `"2400"`
    /// denotes the end-of-day sentinel; any other hour above 23 is
    /// rejected.
    pub fn parse(source: &str) -> (r: Result<TimeOfDay, ParseError>)
        ensures
            match r {
                Ok(t) => {
                    &&& match_from(source@, 0) is Some
                    &&& {
                        let i = match_from(source@, 0)->0;
                        let hh = hour_at(source@, i);
                        let mm = minute_at(source@, i);
                        t == (TimeOfDay { hours: hh as u8, minutes: mm as u8 }) && (hh <= 23 || (hh
                            == 24 && mm == 0))
                    }
                },
                Err(e) => {
                    &&& (e is NoMatch <==> match_from(source@, 0) is None)
                    &&& e is NoMatch || e is InvalidHours
                    &&& e is InvalidHours ==> {
                        let i = match_from(source@, 0)->0;
                        hour_at(source@, i) > 24 || (hour_at(source@, i) == 24 && minute_at(
                            source@,
                            i,
                        ) != 0)
                    }
                },
            },
    {
        let n = source.unicode_len();
        let mut i: usize = 0;
        while i < n
            invariant
                i <= n,
                n == source@.len(),
                match_from(source@, 0) == match_from(source@, i as int),
                !any_match_at(source@, i as int) || i < n,
            decreases n - i,
        {
            if let Some(found) = try_match_at(source, n, i) {
                proof {
                    assert(match_from(source@, i as int) == Some(i as int));
                }
                let (hh, mm) = found;
                if hh <= 23 || (hh == 24 && mm == 0) {
                    return Ok(TimeOfDay { hours: hh, minutes: mm });
                }
                return Err(ParseError::InvalidHours);
            }
            proof {
                assert(match_from(source@, i as int) == match_from(source@, i + 1));
            }
            i += 1;
        }
        proof {
            assert(match_from(source@, n as int) is None);
        }
        Err(ParseError::NoMatch)
    }
}

/// Try to read a military time group starting exactly at position `i`.
fn try_match_at(source: &str, n: usize, i: usize) -> (r: Option<(u8, u8)>)
    requires
        n == source@.len(),
        i < n,
    ensures
        r is Some <==> any_match_at(source@, i as int),
        r is Some ==> ({
            let p = r->0;
            p.0 == hour_at(source@, i as int) && p.1 == minute_at(source@, i as int)
        }),
{
    if n - i < 4 {
        return None;
    }
    let c0 = source.get_char(i);
    let c1 = source.get_char(i + 1);
    let d0 = match digit_value(c0) {
        Some(d) if d <= 2 => d,
        _ => {
            return None;
        },
    };
    let d1 = match digit_value(c1) {
        Some(d) => d,
        None => {
            return None;
        },
    };
    let c2 = source.get_char(i + 2);
    if c2 == ':' {
        if n - i < 5 {
            return None;
        }
        let c3 = source.get_char(i + 3);
        let c4 = source.get_char(i + 4);
        let d3 = match digit_value(c3) {
            Some(d) if d <= 5 => d,
            _ => {
                return None;
            },
        };
        let d4 = match digit_value(c4) {
            Some(d) => d,
            None => {
                return None;
            },
        };
        return Some((d0 * 10 + d1, d3 * 10 + d4));
    }
    let c3 = source.get_char(i + 3);
    let d2 = match digit_value(c2) {
        Some(d) if d <= 5 => d,
        _ => {
            return None;
        },
    };
    let d3 = match digit_value(c3) {
        Some(d) => d,
        None => {
            return None;
        },
    };
    Some((d0 * 10 + d1, d2 * 10 + d3))
}

impl TimeOfDay {
    /// Interpret a numeric configuration value such as `911` or `2400` as a
    /// time of day: hundreds are hours, the rest minutes.
    pub fn from_code(num: u64) -> (r: Result<TimeOfDay, ParseError>)
        ensures
            ({
                let h = num as int / 100;
                let m = num as int % 100;
                match r {
                    Ok(t) => (h <= 23 && m <= 59 || h == 24 && m == 0) && t == (TimeOfDay {
                        hours: h as u8,
                        minutes: m as u8,
                    }),
                    Err(e) => {
                        &&& (e is InvalidHours <==> h > 24 || h == 24 && m != 0)
                        &&& (e is InvalidMinutes <==> h <= 23 && m > 59)
                        &&& (e is InvalidHours || e is InvalidMinutes)
                    },
                }
            }),
    {
        let h = num / 100;
        let m = num % 100;
        if h == 24 && m == 0 {
            return Ok(TimeOfDay { hours: 24, minutes: 0 });
        }
        if h > 23 {
            return Err(ParseError::InvalidHours);
        }
        if m > 59 {
            return Err(ParseError::InvalidMinutes);
        }
        Ok(TimeOfDay { hours: h as u8, minutes: m as u8 })
    }
}

impl TimeOfDay {
    /// Validate a four-character military time token such as `"0911"`, as
    /// configuration files carry it: exactly four characters, hours then
    /// minutes, `"2400"` meaning end of day.
    pub fn parse_military(source: &str) -> (r: Result<TimeOfDay, ParseError>)
        ensures
            match r {
                Ok(t) => {
                    &&& source@.len() == 4
                    &&& plain_match_at(source@, 0)
                    &&& {
                        let hh = hour_at(source@, 0);
                        let mm = minute_at(source@, 0);
                        t == (TimeOfDay { hours: hh as u8, minutes: mm as u8 }) && (hh <= 23 || (hh
                            == 24 && mm == 0))
                    }
                },
                Err(e) => {
                    &&& (e is BadLength <==> source@.len() != 4)
                    &&& (e is NoMatch <==> source@.len() == 4 && !plain_match_at(source@, 0))
                    &&& e is BadLength || e is NoMatch || e is InvalidHours
                    &&& e is InvalidHours ==> hour_at(source@, 0) > 24 || (hour_at(source@, 0) == 24
                        && minute_at(source@, 0) != 0)
                },
            },
    {
        let n = source.unicode_len();
        if n != 4 {
            return Err(ParseError::BadLength);
        }
        match try_match_at(source, n, 0) {
            None => Err(ParseError::NoMatch),
            Some((hh, mm)) => {
                if hh <= 23 || (hh == 24 && mm == 0) {
                    Ok(TimeOfDay { hours: hh, minutes: mm })
                } else {
                    Err(ParseError::InvalidHours)
                }
            },
        }
    }
}

/// A day of the week, Monday being 0 and Sunday 6.
#[derive(PartialEq, Eq, Structural, PartialOrd, Ord, Debug, Hash, Clone, Copy)]
pub struct DayOfWeek(pub u8);

/// Case-insensitive match of one character against a letter.
pub open spec fn eq_ci(c: char, lower: char, upper: char) -> bool {
    c == lower || c == upper
}

/// Which day a three-character prefix names, or -1: `mon` is Monday, `tue`
/// Tuesday, `wed` Wednesday, `thu` Thursday, `fri` Friday, `sat` Saturday,
/// `sun` Sunday, in any letter case.
pub open spec fn day_prefix_index(s: Seq<char>) -> int {
    if s.len() < 3 {
        -1
    } else if eq_ci(s[0], 'm', 'M') && eq_ci(s[1], 'o', 'O') && eq_ci(s[2], 'n', 'N') {
        0
    } else if eq_ci(s[0], 't', 'T') && eq_ci(s[1], 'u', 'U') && eq_ci(s[2], 'e', 'E') {
        1
    } else if eq_ci(s[0], 'w', 'W') && eq_ci(s[1], 'e', 'E') && eq_ci(s[2], 'd', 'D') {
        2
    } else if eq_ci(s[0], 't', 'T') && eq_ci(s[1], 'h', 'H') && eq_ci(s[2], 'u', 'U') {
        3
    } else if eq_ci(s[0], 'f', 'F') && eq_ci(s[1], 'r', 'R') && eq_ci(s[2], 'i', 'I') {
        4
    } else if eq_ci(s[0], 's', 'S') && eq_ci(s[1], 'a', 'A') && eq_ci(s[2], 't', 'T') {
        5
    } else if eq_ci(s[0], 's', 'S') && eq_ci(s[1], 'u', 'U') && eq_ci(s[2], 'n', 'N') {
        6
    } else {
        -1
    }
}

/// Which day a configuration-file key names: the seven day names, plus the
/// historical `wen` spelling for Wednesday that configuration files used.
pub open spec fn day_key_index(s: Seq<char>) -> int {
    if s.len() >= 3 && eq_ci(s[0], 'w', 'W') && eq_ci(s[1], 'e', 'E') && eq_ci(s[2], 'n', 'N') {
        2
    } else {
        day_prefix_index(s)
    }
}

impl DayOfWeek {
    /// The index is meaningful: 0 for Monday through 6 for Sunday.
    pub open spec fn wf(self) -> bool {
        self.0 <= 6
    }

    pub fn monday() -> (r: DayOfWeek)
        ensures
            r == DayOfWeek(0),
    {
        DayOfWeek(0)
    }

    pub fn tuesday() -> (r: DayOfWeek)
        ensures
            r == DayOfWeek(1),
    {
        DayOfWeek(1)
    }

    pub fn wednesday() -> (r: DayOfWeek)
        ensures
            r == DayOfWeek(2),
    {
        DayOfWeek(2)
    }

    pub fn thursday() -> (r: DayOfWeek)
        ensures
            r == DayOfWeek(3),
    {
        DayOfWeek(3)
    }

    pub fn friday() -> (r: DayOfWeek)
        ensures
            r == DayOfWeek(4),
    {
        DayOfWeek(4)
    }

    pub fn saturday() -> (r: DayOfWeek)
        ensures
            r == DayOfWeek(5),
    {
        DayOfWeek(5)
    }

    pub fn sunday() -> (r: DayOfWeek)
        ensures
            r == DayOfWeek(6),
    {
        DayOfWeek(6)
    }

    /// Parse a day of week from its name, read case-insensitively from the
    /// first three characters of the text.
    pub fn parse(source: &str) -> (r: Result<DayOfWeek, ParseError>)
        ensures
            match r {
                Ok(d) => day_prefix_index(source@) >= 0 && d.0 == day_prefix_index(source@),
                Err(e) => day_prefix_index(source@) == -1 && e is UnknownDay,
            },
    {
        let n = source.unicode_len();
        if n < 3 {
            return Err(ParseError::UnknownDay);
        }
        let c0 = source.get_char(0);
        let c1 = source.get_char(1);
        let c2 = source.get_char(2);
        let idx: u8 = if (c0 == 'm' || c0 == 'M') && (c1 == 'o' || c1 == 'O') && (c2 == 'n' || c2
            == 'N') {
            0
        } else if (c0 == 't' || c0 == 'T') && (c1 == 'u' || c1 == 'U') && (c2 == 'e' || c2 == 'E') {
            1
        } else if (c0 == 'w' || c0 == 'W') && (c1 == 'e' || c1 == 'E') && (c2 == 'd' || c2 == 'D') {
            2
        } else if (c0 == 't' || c0 == 'T') && (c1 == 'h' || c1 == 'H') && (c2 == 'u' || c2 == 'U') {
            3
        } else if (c0 == 'f' || c0 == 'F') && (c1 == 'r' || c1 == 'R') && (c2 == 'i' || c2 == 'I') {
            4
        } else if (c0 == 's' || c0 == 'S') && (c1 == 'a' || c1 == 'A') && (c2 == 't' || c2 == 'T') {
            5
        } else if (c0 == 's' || c0 == 'S') && (c1 == 'u' || c1 == 'U') && (c2 == 'n' || c2 == 'N') {
            6
        } else {
            return Err(ParseError::UnknownDay);
        };
        Ok(DayOfWeek(idx))
    }

    /// Parse a day of week as configuration files key it: the day names
    /// that `parse` accepts, plus the historical `wen` spelling for
    /// Wednesday.
    pub fn parse_config_key(source: &str) -> (r: Result<DayOfWeek, ParseError>)
        ensures
            match r {
                Ok(d) => day_key_index(source@) >= 0 && d.0 == day_key_index(source@),
                Err(e) => day_key_index(source@) == -1 && e is UnknownDay,
            },
    {
        let n = source.unicode_len();
        if n >= 3 {
            let c0 = source.get_char(0);
            let c1 = source.get_char(1);
            let c2 = source.get_char(2);
            if (c0 == 'w' || c0 == 'W') && (c1 == 'e' || c1 == 'E') && (c2 == 'n' || c2 == 'N') {
                return Ok(DayOfWeek(2));
            }
        }
        DayOfWeek::parse(source)
    }

    /// The day for a numeric index, Monday being 0; `None` above 6.
    pub fn from_index(index: u8) -> (r: Option<DayOfWeek>)
        ensures
            r is Some <==> index <= 6,
            r is Some ==> r->0 == DayOfWeek(index),
    {
        if index <= 6 {
            Some(DayOfWeek(index))
        } else {
            None
        }
    }

    /// The English name of the day, lower case.
    pub fn name(&self) -> (r: &'static str)
        requires
            self.wf(),
        ensures
            self.0 == 0 ==> r@ == "monday"@,
            self.0 == 1 ==> r@ == "tuesday"@,
            self.0 == 2 ==> r@ == "wednesday"@,
            self.0 == 3 ==> r@ == "thursday"@,
            self.0 == 4 ==> r@ == "friday"@,
            self.0 == 5 ==> r@ == "saturday"@,
            self.0 == 6 ==> r@ == "sunday"@,
    {
        match self.0 {
            0 => "monday",
            1 => "tuesday",
            2 => "wednesday",
            3 => "thursday",
            4 => "friday",
            5 => "saturday",
            _ => "sunday",
        }
    }
}

/// The name of an operating-system user account.
#[derive(Debug, PartialEq, Eq, Hash)]
pub struct Username(pub String);

impl View for Username {
    type V = Seq<char>;

    open spec fn view(&self) -> Seq<char> {
        self.0@
    }
}

impl Clone for Username {
    fn clone(&self) -> (r: Username)
        ensures
            r == *self,
    {
        Username(self.0.clone())
    }
}

/// A network domain name, such as `example.com`.
#[derive(Debug, PartialEq, Eq, Hash)]
pub struct Domain(pub String);

impl View for Domain {
    type V = Seq<char>;

    open spec fn view(&self) -> Seq<char> {
        self.0@
    }
}

impl Clone for Domain {
    fn clone(&self) -> (r: Domain)
        ensures
            r == *self,
    {
        Domain(self.0.clone())
    }
}


} // verus!
