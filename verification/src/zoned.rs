//! Time zones: resolution strategies, constructors and text parsing.

use crate::local::civil_from_days;
use crate::local::civil_of_day;
use crate::local::day_number_of;
use crate::local::days_from_civil;
use crate::local::days_in_month;
use crate::local::hour_of;
use crate::local::minute_of;
use crate::local::second_of;
use crate::local::spec_days_before_year;
use crate::local::spec_days_from_civil;
use crate::local::split_days;
use crate::local::valid_civil_date;
use crate::local::weekday_of;
use crate::local::weekday_of_day;
use crate::local::LocalDateTime;
use crate::local::ADJUSTED_LIMIT;
use crate::tzfile::sorted_descending;
use crate::tzfile::spec_decode;
use crate::tzfile::DecodeError;
use crate::tzfile::Transition;
use crate::tzfile::TransitionModel;
use vstd::prelude::*;

verus! {

/// A time zone: the rule by which a naive date/time is adjusted to the
/// locally observed one.
#[derive(Debug)]
pub enum TimeZone {
    /// No adjustment: the naive value already is the observed one.
    UTC,
    /// A constant offset in seconds, applied uniformly.
    FixedOffset { offset: i32 },
    /// A table of historical transitions, sorted by timestamp in
    /// descending order.
    VariableOffset { transitions: Vec<Transition> },
}

/// The mathematical model of a time zone.
pub ghost enum TimeZoneModel {
    UTC,
    FixedOffset { offset: int },
    VariableOffset { transitions: Seq<TransitionModel> },
}

impl View for TimeZone {
    type V = TimeZoneModel;

    open spec fn view(&self) -> TimeZoneModel {
        match self {
            TimeZone::UTC => TimeZoneModel::UTC,
            TimeZone::FixedOffset { offset } => TimeZoneModel::FixedOffset {
                offset: *offset as int,
            },
            TimeZone::VariableOffset { transitions } => TimeZoneModel::VariableOffset {
                transitions: transitions.deep_view(),
            },
        }
    }
}

/// A validation failure when constructing a fixed-offset zone.
#[derive(Clone, Copy, Debug, PartialEq, Eq, Structural)]
pub enum Error {
    /// The requested offset magnitude exceeds one day.
    OutOfRange,
    /// Hour and minute components carry opposite non-zero signs.
    SignMismatch,
}

/// A failure while turning text or parsed fields into a zone or a zoned
/// value.
#[derive(Clone, Copy, Debug, PartialEq, Eq, Structural)]
pub enum ParseError {
    /// A zone validation failure, with its cause.
    Zone(Error),
    /// A calendar or clock field is out of range.
    Date,
    /// A numeric component could not be read as an integer.
    Number,
    /// The text does not match the grammar.
    Parse,
}

/// The sign of an offset designator.
#[derive(Clone, Copy, Debug, PartialEq, Eq, Structural)]
pub enum Sign {
    Plus,
    Minus,
}

/// The structured fields of an ISO-8601 zone designator.
#[derive(Debug)]
pub enum ZoneFields {
    /// The literal `Z`: UTC.
    Zulu,
    /// A signed offset with an hour digit string and an optional minute
    /// digit string.
    Offset { sign: Sign, hours: String, minutes: Option<String> },
}

/// A naive date/time paired with a time zone; fields are resolved against
/// the zone on every access.
#[derive(Debug)]
pub struct ZonedDateTime {
    pub local: LocalDateTime,
    pub time_zone: TimeZone,
}

/// Index of the first transition, in scan order, whose timestamp lies
/// strictly before the candidate second count.
pub open spec fn first_transition_before(s: Seq<TransitionModel>, t: int) -> Option<int>
    decreases s.len(),
{
    if s.len() == 0 {
        None
    } else if s[0].timestamp < t {
        Some(0)
    } else {
        match first_transition_before(s.drop_first(), t) {
            Option::None => None,
            Option::Some(i) => Some(i + 1),
        }
    }
}

/// The adjusted second count a zone resolves a naive second count to.
pub open spec fn spec_adjust_seconds(z: TimeZoneModel, s: int) -> int {
    match z {
        TimeZoneModel::UTC => s,
        TimeZoneModel::FixedOffset { offset } => s + offset,
        TimeZoneModel::VariableOffset { transitions } => {
            match first_transition_before(transitions, s) {
                Option::None => s,
                Option::Some(i) => s + transitions[i].offset_seconds,
            }
        },
    }
}

/// What a scan for the first qualifying transition yields: either no
/// record lies before the candidate, or the found index is the first one
/// that does.
proof fn lemma_first_before_props(s: Seq<TransitionModel>, t: int)
    ensures
        first_transition_before(s, t) is None ==> forall|j: int|
            0 <= j < s.len() ==> s[j].timestamp >= t,
        first_transition_before(s, t) matches Some(i) ==> 0 <= i < s.len()
            && s[i].timestamp < t && forall|j: int| 0 <= j < i ==> s[j].timestamp >= t,
    decreases s.len(),
{
    if s.len() > 0 && s[0].timestamp >= t {
        lemma_first_before_props(s.drop_first(), t);
        let fb = first_transition_before(s.drop_first(), t);
        if fb is None {
            assert forall|j: int| 0 <= j < s.len() implies s[j].timestamp >= t by {
                if j > 0 {
                    assert(s.drop_first()[j - 1] == s[j]);
                }
            }
        } else {
            let i = fb->Some_0;
            assert(s.drop_first()[i] == s[i + 1]);
            assert forall|j: int| 0 <= j < i + 1 implies s[j].timestamp >= t by {
                if j > 0 {
                    assert(s.drop_first()[j - 1] == s[j]);
                }
            }
        }
    }
}

/// Converse characterisation: an index that qualifies, with none before
/// it qualifying, is the one the scan finds.
proof fn lemma_first_before_at(s: Seq<TransitionModel>, t: int, i: int)
    requires
        0 <= i < s.len(),
        s[i].timestamp < t,
        forall|j: int| 0 <= j < i ==> s[j].timestamp >= t,
    ensures
        first_transition_before(s, t) == Some(i),
    decreases s.len(),
{
    if i > 0 {
        assert(forall|j: int|
            0 <= j < s.drop_first().len() ==> s.drop_first()[j] == s[j + 1]);
        assert(s.drop_first()[i - 1] == s[i]);
        lemma_first_before_at(s.drop_first(), t, i - 1);
    }
}

/// No index qualifies, so the scan finds nothing.
proof fn lemma_first_before_none(s: Seq<TransitionModel>, t: int)
    requires
        forall|j: int| 0 <= j < s.len() ==> s[j].timestamp >= t,
    ensures
        first_transition_before(s, t) is None,
    decreases s.len(),
{
    if s.len() > 0 {
        assert(forall|j: int|
            0 <= j < s.drop_first().len() ==> s.drop_first()[j] == s[j + 1]);
        lemma_first_before_none(s.drop_first(), t);
    }
}

/// On a descending-sorted table the resolver selects the transition with
/// the greatest timestamp strictly below the candidate, and selects
/// nothing exactly when no timestamp lies below it (in particular when
/// the table is empty).
pub proof fn lemma_variable_selects_greatest(s: Seq<TransitionModel>, t: int)
    requires
        sorted_descending(s),
    ensures
        first_transition_before(s, t) is None <==> forall|j: int|
            0 <= j < s.len() ==> s[j].timestamp >= t,
        first_transition_before(s, t) matches Some(i) ==> 0 <= i < s.len()
            && s[i].timestamp < t && forall|j: int|
            0 <= j < s.len() && s[j].timestamp < t ==> s[j].timestamp <= s[i].timestamp,
{
    lemma_first_before_props(s, t);
    let fb = first_transition_before(s, t);
    if fb is Some {
        let i = fb->Some_0;
        assert forall|j: int|
            0 <= j < s.len() && s[j].timestamp < t implies s[j].timestamp <= s[i].timestamp by {
            if j < i {
                assert(s[j].timestamp >= t);
            }
        }
    }
}

/// Adjusting by UTC changes nothing: the identity of the resolver.
pub proof fn lemma_adjust_utc_identity(s: int)
    ensures
        spec_adjust_seconds(TimeZoneModel::UTC, s) == s,
{
}

/// Adjusting by a fixed offset adds exactly that offset.
pub proof fn lemma_adjust_fixed_adds_offset(o: int, s: int)
    ensures
        spec_adjust_seconds(TimeZoneModel::FixedOffset { offset: o }, s) == s + o,
{
}

/// Copies a byte vector element by element.
fn clone_bytes(v: &Vec<u8>) -> (r: Vec<u8>)
    ensures
        r@ == v@,
{
    let mut r: Vec<u8> = Vec::new();
    let mut i: usize = 0;
    while i < v.len()
        invariant
            i <= v@.len(),
            r@ == v@.subrange(0, i as int),
        decreases v@.len() - i,
    {
        r.push(v[i]);
        proof {
            assert(r@ =~= v@.subrange(0, i + 1));
        }
        i = i + 1;
    }
    proof {
        assert(v@.subrange(0, v@.len() as int) =~= v@);
    }
    r
}

impl Clone for Transition {
    /// Clones a record, preserving its model.
    fn clone(&self) -> (r: Self)
        ensures
            r@ == self@,
    {
        Transition {
            timestamp: self.timestamp,
            offset_seconds: self.offset_seconds,
            is_dst: self.is_dst,
            designation: clone_bytes(&self.designation),
        }
    }
}

impl Clone for TimeZone {
    /// Clones a zone, preserving its model (a variable-offset zone's
    /// whole transition table is copied).
    fn clone(&self) -> (r: Self)
        ensures
            r@ == self@,
    {
        match self {
            TimeZone::UTC => TimeZone::UTC,
            TimeZone::FixedOffset { offset } => TimeZone::FixedOffset { offset: *offset },
            TimeZone::VariableOffset { transitions } => {
                let mut v: Vec<Transition> = Vec::new();
                let mut i: usize = 0;
                while i < transitions.len()
                    invariant
                        i <= transitions@.len(),
                        v@.len() == i,
                        forall|j: int|
                            0 <= j < i ==> v.deep_view()[j] == transitions.deep_view()[j],
                    decreases transitions@.len() - i,
                {
                    v.push(transitions[i].clone());
                    i = i + 1;
                }
                proof {
                    assert(v.deep_view() =~= transitions.deep_view());
                }
                TimeZone::VariableOffset { transitions: v }
            },
        }
    }
}

/// The fixed offset a pair of hour and minute components composes to,
/// or the validation error they are rejected with. Components must share
/// a sign (where both are non-zero) and stay below 24 hours and 60
/// minutes in magnitude.
pub open spec fn spec_of_hours_and_minutes(h: int, m: int) -> Result<int, Error> {
    if (h > 0 && m < 0) || (h < 0 && m > 0) {
        Err(Error::SignMismatch)
    } else if h <= -24 || h >= 24 {
        Err(Error::OutOfRange)
    } else if m <= -60 || m >= 60 {
        Err(Error::OutOfRange)
    } else {
        Ok(h * 3600 + m * 60)
    }
}

impl TimeZone {
    /// A zone model is well formed when a fixed offset stays within one
    /// day and a transition table is sorted descending by timestamp.
    pub open spec fn wf(self) -> bool {
        match self@ {
            TimeZoneModel::UTC => true,
            TimeZoneModel::FixedOffset { offset } => -86400 <= offset <= 86400,
            TimeZoneModel::VariableOffset { transitions } => sorted_descending(transitions),
        }
    }

    /// Resolves the zone against a naive value: UTC returns it
    /// unchanged, a fixed offset adds itself, and a transition table
    /// adds the offset of the first record in scan order whose timestamp
    /// lies strictly before the value's second count (the value is
    /// returned unchanged when no record qualifies, in particular when
    /// it predates every record or the table is empty).
    ///
    /// The naive second count is compared against the table's UTC
    /// timestamps directly, a deliberate approximation. On the
    /// descending-sorted table a loader produces, the first qualifying
    /// record is the one with the greatest timestamp below the value
    /// (see [`lemma_variable_selects_greatest`]); among records with
    /// equal timestamps, the first in scan order wins.
    pub fn adjust(&self, local: LocalDateTime) -> (r: LocalDateTime)
        requires
            local.wf(),
        ensures
            r.seconds == spec_adjust_seconds(self@, local.seconds as int),
            r.millisecond == local.millisecond,
            -ADJUSTED_LIMIT <= r.seconds <= ADJUSTED_LIMIT,
    {
        match self {
            TimeZone::UTC => self.adjust_utc(local),
            TimeZone::FixedOffset { offset } => self.adjust_fixed(*offset, local),
            TimeZone::VariableOffset { transitions } => self.adjust_variable(transitions, local),
        }
    }

    /// No adjustment: a naive value is already denominated in UTC.
    fn adjust_utc(&self, local: LocalDateTime) -> (r: LocalDateTime)
        ensures
            r == local,
    {
        local
    }

    /// Adds a fixed offset to the naive second count.
    fn adjust_fixed(&self, offset: i32, local: LocalDateTime) -> (r: LocalDateTime)
        requires
            local.wf(),
        ensures
            r.seconds == local.seconds + offset,
            r.millisecond == local.millisecond,
    {
        LocalDateTime { seconds: local.seconds + (offset as i64), millisecond: local.millisecond }
    }

    /// Scans the table for the first record whose timestamp lies
    /// strictly before the naive second count and adds its offset.
    fn adjust_variable(&self, transitions: &Vec<Transition>, local: LocalDateTime) -> (r:
        LocalDateTime)
        requires
            local.wf(),
        ensures
            r.seconds == spec_adjust_seconds(
                TimeZoneModel::VariableOffset { transitions: transitions.deep_view() },
                local.seconds as int,
            ),
            r.millisecond == local.millisecond,
            -ADJUSTED_LIMIT <= r.seconds <= ADJUSTED_LIMIT,
    {
        let ts: i64 = local.seconds;
        let n: usize = transitions.len();
        let mut i: usize = 0;
        while i < n
            invariant
                local.wf(),
                ts == local.seconds,
                n == transitions@.len(),
                i <= n,
                forall|j: int| 0 <= j < i ==> transitions.deep_view()[j].timestamp >= ts,
            decreases n - i,
        {
            if transitions[i].timestamp < ts {
                proof {
                    lemma_first_before_at(transitions.deep_view(), ts as int, i as int);
                }
                return LocalDateTime {
                    seconds: ts + (transitions[i].offset_seconds as i64),
                    millisecond: local.millisecond,
                };
            }
            i = i + 1;
        }
        proof {
            lemma_first_before_none(transitions.deep_view(), ts as int);
        }
        local
    }

    /// Pairs the zone with a naive value; the zone is copied whole.
    pub fn at(&self, local: LocalDateTime) -> (r: ZonedDateTime)
        requires
            local.wf(),
        ensures
            r.local == local,
            r.time_zone@ == self@,
    {
        ZonedDateTime { local, time_zone: self.clone() }
    }

    /// Creates a fixed-offset time zone from a number of seconds.
    ///
    /// Succeeds exactly when the magnitude is at most one day's worth of
    /// seconds; fails with [`Error::OutOfRange`] otherwise.
    pub fn of_seconds(seconds: i32) -> (r: Result<TimeZone, Error>)
        ensures
            (-86400 <= seconds <= 86400) <==> r is Ok,
            r is Ok ==> r->Ok_0 == (TimeZone::FixedOffset { offset: seconds }),
            r is Err ==> r->Err_0 == Error::OutOfRange,
    {
        if -86400 <= seconds && seconds <= 86400 {
            Ok(TimeZone::FixedOffset { offset: seconds })
        } else {
            Err(Error::OutOfRange)
        }
    }

    /// Creates a fixed-offset time zone from hour and minute components.
    ///
    /// Fails with [`Error::SignMismatch`] exactly when the components
    /// are non-zero with opposite signs, and with [`Error::OutOfRange`]
    /// exactly when a component reaches 24 hours or 60 minutes in
    /// magnitude; otherwise the offset is the composed total in seconds.
    pub fn of_hours_and_minutes(hours: i8, minutes: i8) -> (r: Result<TimeZone, Error>)
        ensures
            r is Ok <==> spec_of_hours_and_minutes(hours as int, minutes as int) is Ok,
            r is Ok ==> r->Ok_0@ == (TimeZoneModel::FixedOffset {
                offset: spec_of_hours_and_minutes(hours as int, minutes as int)->Ok_0,
            }),
            r is Err ==> r->Err_0 == spec_of_hours_and_minutes(
                hours as int,
                minutes as int,
            )->Err_0,
    {
        if (hours > 0 && minutes < 0) || (hours < 0 && minutes > 0) {
            Err(Error::SignMismatch)
        } else if hours <= -24 || hours >= 24 {
            Err(Error::OutOfRange)
        } else if minutes <= -60 || minutes >= 60 {
            Err(Error::OutOfRange)
        } else {
            let total: i32 = (hours as i32) * 3600 + (minutes as i32) * 60;
            TimeZone::of_seconds(total)
        }
    }

    /// Decodes a binary transition table and wraps its records, sorted by
    /// timestamp in descending order, as a variable-offset zone. Succeeds
    /// exactly when the buffer decodes, with the decoded records kept
    /// whole (as a multiset); a failure reports the decode error.
    pub fn from_tz_data(data: &Vec<u8>) -> (r: Result<TimeZone, DecodeError>)
        ensures
            r is Ok <==> spec_decode(data@) is Ok,
            r is Ok ==> (r->Ok_0@ matches TimeZoneModel::VariableOffset { transitions }
                && sorted_descending(transitions) && transitions.to_multiset() == spec_decode(
                data@,
            )->Ok_0.to_multiset()),
            r is Ok ==> r->Ok_0.wf(),
            r is Err ==> r->Err_0 == spec_decode(data@)->Err_0,
    {
        match crate::tzfile::parse_tz_data(data) {
            Ok(list) => {
                let sorted = crate::tzfile::sort_transitions_descending(list);
                Ok(TimeZone::VariableOffset { transitions: sorted })
            },
            Err(e) => Err(e),
        }
    }
}

/// Whether a character is an ASCII decimal digit.
pub open spec fn is_digit_char(c: char) -> bool {
    48 <= c as int <= 57
}

/// Whether every character of a sequence is an ASCII decimal digit.
pub open spec fn all_digits(s: Seq<char>) -> bool {
    forall|i: int| 0 <= i < s.len() ==> is_digit_char(s[i])
}

/// The numeric value of a digit character.
pub open spec fn digit_val(c: char) -> int {
    c as int - 48
}

/// The base-ten value of a digit string.
pub open spec fn digits_val(s: Seq<char>) -> int
    decreases s.len(),
{
    if s.len() == 0 {
        0
    } else {
        digits_val(s.drop_last()) * 10 + digit_val(s.last())
    }
}

/// Whether a digit string parses as a small non-negative number: it is
/// non-empty, all digits, and its value fits the component type.
pub open spec fn digits_ok(s: Seq<char>) -> bool {
    s.len() > 0 && all_digits(s) && digits_val(s) <= 127
}

/// A digit string's value is never negative.
proof fn lemma_digits_val_nonneg(s: Seq<char>)
    requires
        all_digits(s),
    ensures
        digits_val(s) >= 0,
    decreases s.len(),
{
    if s.len() > 0 {
        assert(forall|q: int| 0 <= q < s.drop_last().len() ==> s.drop_last()[q] == s[q]);
        lemma_digits_val_nonneg(s.drop_last());
    }
}

/// A digit string's value only grows as more digits follow.
proof fn lemma_digits_prefix_le(s: Seq<char>, i: int)
    requires
        all_digits(s),
        0 <= i <= s.len(),
    ensures
        digits_val(s.subrange(0, i)) <= digits_val(s),
    decreases s.len() - i,
{
    if i == s.len() {
        assert(s.subrange(0, i) =~= s);
    } else {
        let pre = s.subrange(0, i);
        let pre1 = s.subrange(0, i + 1);
        assert(pre1.drop_last() =~= pre);
        assert(forall|q: int| 0 <= q < pre.len() ==> pre[q] == s[q]);
        lemma_digits_val_nonneg(pre);
        lemma_digits_prefix_le(s, i + 1);
    }
}

/// Reads a digit string as a number: succeeds exactly when the text is
/// non-empty, all ASCII digits, and of value at most 127.
fn parse_digits_i8(s: &str) -> (r: Option<i8>)
    ensures
        r is Some <==> digits_ok(s@),
        r is Some ==> 0 <= r->Some_0 && r->Some_0 == digits_val(s@),
{
    let n: usize = s.unicode_len();
    if n == 0 {
        return None;
    }
    let mut i: usize = 0;
    let mut acc: i32 = 0;
    while i < n
        invariant
            i <= n,
            n == s@.len(),
            0 <= acc <= 127,
            acc == digits_val(s@.subrange(0, i as int)),
            all_digits(s@.subrange(0, i as int)),
        decreases n - i,
    {
        let c = s.get_char(i);
        let cv: u32 = c as u32;
        if cv < 48 || cv > 57 {
            proof {
                assert(!is_digit_char(s@[i as int]));
                assert(!all_digits(s@));
            }
            return None;
        }
        let next: i32 = acc * 10 + ((cv - 48) as i32);
        proof {
            let pre = s@.subrange(0, i as int);
            let pre1 = s@.subrange(0, i + 1);
            assert(pre1.drop_last() =~= pre);
            assert(pre1.last() == s@[i as int]);
            assert(forall|q: int| 0 <= q < pre1.len() ==> pre1[q] == s@[q]);
        }
        if next > 127 {
            proof {
                if all_digits(s@) {
                    assert(forall|q: int|
                        0 <= q < s@.subrange(0, i + 1).len() ==> s@.subrange(0, i + 1)[q]
                            == s@[q]);
                    lemma_digits_prefix_le(s@, i + 1);
                }
            }
            return None;
        }
        acc = next;
        i = i + 1;
    }
    proof {
        assert(s@.subrange(0, n as int) =~= s@);
    }
    Some(acc as i8)
}

/// The mathematical model of parsed zone-designator fields.
pub ghost enum ZoneFieldsModel {
    Zulu,
    Offset { sign: Sign, hours: Seq<char>, minutes: Option<Seq<char>> },
}

impl View for ZoneFields {
    type V = ZoneFieldsModel;

    open spec fn view(&self) -> ZoneFieldsModel {
        match self {
            ZoneFields::Zulu => ZoneFieldsModel::Zulu,
            ZoneFields::Offset { sign, hours, minutes } => ZoneFieldsModel::Offset {
                sign: *sign,
                hours: hours@,
                minutes: match minutes {
                    Some(m) => Some(m@),
                    None => None,
                },
            },
        }
    }
}

/// The zone that parsed designator fields construct, or the error they
/// are rejected with: `Z` is UTC; an offset parses its digit strings,
/// applies the sign to both components, and composes them as hours and
/// minutes.
pub open spec fn spec_from_fields(f: ZoneFieldsModel) -> Result<TimeZoneModel, ParseError> {
    match f {
        ZoneFieldsModel::Zulu => Ok(TimeZoneModel::UTC),
        ZoneFieldsModel::Offset { sign, hours, minutes } => {
            if !digits_ok(hours) {
                Err(ParseError::Number)
            } else if (minutes matches Some(m) && !digits_ok(m)) {
                Err(ParseError::Number)
            } else {
                let h0 = digits_val(hours);
                let m0 = match minutes {
                    Some(m) => digits_val(m),
                    None => 0,
                };
                let h = if sign == Sign::Minus { -h0 } else { h0 };
                let m = if sign == Sign::Minus { -m0 } else { m0 };
                match spec_of_hours_and_minutes(h, m) {
                    Ok(off) => Ok(TimeZoneModel::FixedOffset { offset: off }),
                    Err(e) => Err(ParseError::Zone(e)),
                }
            }
        },
    }
}

impl TimeZone {
    /// Builds a zone from parsed designator fields: `Z` is UTC, an
    /// offset composes its hour and minute digit strings under its sign.
    /// An unreadable digit string fails with [`ParseError::Number`], an
    /// invalid offset with the validation error under
    /// [`ParseError::Zone`].
    pub fn from_fields(fields: ZoneFields) -> (r: Result<TimeZone, ParseError>)
        ensures
            r is Ok <==> spec_from_fields(fields@) is Ok,
            r is Ok ==> r->Ok_0@ == spec_from_fields(fields@)->Ok_0,
            r is Err ==> r->Err_0 == spec_from_fields(fields@)->Err_0,
    {
        match fields {
            ZoneFields::Zulu => Ok(TimeZone::UTC),
            ZoneFields::Offset { sign, hours, minutes } => {
                let h0: i8 = match parse_digits_i8(hours.as_str()) {
                    Some(v) => v,
                    None => {
                        return Err(ParseError::Number);
                    },
                };
                let m0: i8 = match &minutes {
                    Some(ms) => match parse_digits_i8(ms.as_str()) {
                        Some(v) => v,
                        None => {
                            return Err(ParseError::Number);
                        },
                    },
                    None => 0,
                };
                let h: i8 = match sign {
                    Sign::Plus => h0,
                    Sign::Minus => -h0,
                };
                let m: i8 = match sign {
                    Sign::Plus => m0,
                    Sign::Minus => -m0,
                };
                match TimeZone::of_hours_and_minutes(h, m) {
                    Ok(z) => Ok(z),
                    Err(e) => Err(ParseError::Zone(e)),
                }
            },
        }
    }
}

/// Whether a character is an offset sign.
pub open spec fn is_sign_char(c: char) -> bool {
    c == '+' || c == '-'
}

/// Whether text matches the zone-designator grammar: `Z` alone, or a
/// sign, two hour digits, and optionally a colon and two minute digits.
pub open spec fn valid_zone_text(s: Seq<char>) -> bool {
    ||| (s.len() == 1 && s[0] == 'Z')
    ||| (s.len() == 3 && is_sign_char(s[0]) && is_digit_char(s[1]) && is_digit_char(s[2]))
    ||| (s.len() == 6 && is_sign_char(s[0]) && is_digit_char(s[1]) && is_digit_char(s[2])
        && s[3] == ':' && is_digit_char(s[4]) && is_digit_char(s[5]))
}

/// The designator fields that valid zone text carries.
pub open spec fn spec_zone_fields_of_text(s: Seq<char>) -> ZoneFieldsModel {
    if s.len() == 1 {
        ZoneFieldsModel::Zulu
    } else {
        ZoneFieldsModel::Offset {
            sign: if s[0] == '-' {
                Sign::Minus
            } else {
                Sign::Plus
            },
            hours: s.subrange(1, 3),
            minutes: if s.len() == 6 {
                Some(s.subrange(4, 6))
            } else {
                None
            },
        }
    }
}

/// Whether a character is an ASCII decimal digit, executable form.
fn is_digit(c: char) -> (r: bool)
    ensures
        r == is_digit_char(c),
{
    let v: u32 = c as u32;
    48 <= v && v <= 57
}

/// Splits a zone designator into its structured fields: succeeds exactly
/// on text of the grammar, and fails with [`ParseError::Parse`]
/// otherwise.
pub fn parse_iso_8601_zone(input: &str) -> (r: Result<ZoneFields, ParseError>)
    ensures
        r is Ok <==> valid_zone_text(input@),
        r is Ok ==> r->Ok_0@ == spec_zone_fields_of_text(input@),
        r is Err ==> r->Err_0 == ParseError::Parse,
{
    let n: usize = input.unicode_len();
    if n == 1 && input.get_char(0) == 'Z' {
        return Ok(ZoneFields::Zulu);
    }
    if n != 3 && n != 6 {
        return Err(ParseError::Parse);
    }
    let c0 = input.get_char(0);
    let sign = if c0 == '+' {
        Sign::Plus
    } else if c0 == '-' {
        Sign::Minus
    } else {
        return Err(ParseError::Parse);
    };
    if !(is_digit(input.get_char(1)) && is_digit(input.get_char(2))) {
        return Err(ParseError::Parse);
    }
    let hours = input.substring_char(1, 3).to_owned();
    if n == 3 {
        return Ok(ZoneFields::Offset { sign, hours, minutes: None });
    }
    if input.get_char(3) != ':' {
        return Err(ParseError::Parse);
    }
    if !(is_digit(input.get_char(4)) && is_digit(input.get_char(5))) {
        return Err(ParseError::Parse);
    }
    let minutes = input.substring_char(4, 6).to_owned();
    Ok(ZoneFields::Offset { sign, hours, minutes: Some(minutes) })
}

impl TimeZone {
    /// Parses a zone designator: text of the grammar builds the zone its
    /// fields describe, and any other text fails with
    /// [`ParseError::Parse`].
    pub fn from_str(input: &str) -> (r: Result<TimeZone, ParseError>)
        ensures
            valid_zone_text(input@) ==> {
                let f = spec_zone_fields_of_text(input@);
                &&& (r is Ok <==> spec_from_fields(f) is Ok)
                &&& (r is Ok ==> r->Ok_0@ == spec_from_fields(f)->Ok_0)
                &&& (r is Err ==> r->Err_0 == spec_from_fields(f)->Err_0)
            },
            !valid_zone_text(input@) ==> r == Err::<TimeZone, ParseError>(ParseError::Parse),
    {
        match parse_iso_8601_zone(input) {
            Ok(fields) => TimeZone::from_fields(fields),
            Err(e) => Err(e),
        }
    }
}

impl ZonedDateTime {
    /// A well-formed zoned value: its naive component is well formed.
    pub open spec fn wf(self) -> bool {
        self.local.wf()
    }

    /// The second count the zone resolves the naive value to.
    pub open spec fn adjusted_seconds(self) -> int {
        spec_adjust_seconds(self.time_zone@, self.local.seconds as int)
    }

    /// Calendar year of the adjusted value: the year of the unique
    /// calendar date the adjusted day number decomposes into.
    pub fn year(&self) -> (r: i64)
        requires
            self.wf(),
        ensures
            r == civil_of_day(day_number_of(self.adjusted_seconds())).0,
    {
        let adj = self.time_zone.adjust(self.local);
        let (days, _sod) = split_days(adj.seconds);
        let (y, _m, _d, _doy) = civil_from_days(days);
        y
    }

    /// Calendar month (1 through 12) of the adjusted value.
    pub fn month(&self) -> (r: u8)
        requires
            self.wf(),
        ensures
            1 <= r <= 12,
            r == civil_of_day(day_number_of(self.adjusted_seconds())).1,
    {
        let adj = self.time_zone.adjust(self.local);
        let (days, _sod) = split_days(adj.seconds);
        let (_y, m, _d, _doy) = civil_from_days(days);
        m
    }

    /// Day of month of the adjusted value.
    pub fn day(&self) -> (r: i8)
        requires
            self.wf(),
        ensures
            1 <= r <= 31,
            r == civil_of_day(day_number_of(self.adjusted_seconds())).2,
    {
        let adj = self.time_zone.adjust(self.local);
        let (days, _sod) = split_days(adj.seconds);
        let (_y, _m, d, _doy) = civil_from_days(days);
        d as i8
    }

    /// One-based day of year of the adjusted value.
    pub fn yearday(&self) -> (r: i16)
        requires
            self.wf(),
        ensures
            ({
                let days = day_number_of(self.adjusted_seconds());
                r == days - spec_days_before_year(civil_of_day(days).0) + 1
            }),
            1 <= r <= 366,
    {
        let adj = self.time_zone.adjust(self.local);
        let (days, _sod) = split_days(adj.seconds);
        let (_y, _m, _d, doy) = civil_from_days(days);
        doy as i16
    }

    /// Day of week of the adjusted value: 0 is Sunday through 6 is
    /// Saturday.
    pub fn weekday(&self) -> (r: u8)
        requires
            self.wf(),
        ensures
            r == weekday_of(self.adjusted_seconds()),
            r < 7,
    {
        let adj = self.time_zone.adjust(self.local);
        let (days, _sod) = split_days(adj.seconds);
        weekday_of_day(days)
    }

    /// Hour of day of the adjusted value.
    pub fn hour(&self) -> (r: i8)
        requires
            self.wf(),
        ensures
            r == hour_of(self.adjusted_seconds()),
            0 <= r < 24,
    {
        let adj = self.time_zone.adjust(self.local);
        let (_days, sod) = split_days(adj.seconds);
        (sod / 3600) as i8
    }

    /// Minute of hour of the adjusted value.
    pub fn minute(&self) -> (r: i8)
        requires
            self.wf(),
        ensures
            r == minute_of(self.adjusted_seconds()),
            0 <= r < 60,
    {
        let adj = self.time_zone.adjust(self.local);
        let (_days, sod) = split_days(adj.seconds);
        ((sod / 60) % 60) as i8
    }

    /// Second of minute of the adjusted value.
    pub fn second(&self) -> (r: i8)
        requires
            self.wf(),
        ensures
            r == second_of(self.adjusted_seconds()),
            0 <= r < 60,
    {
        let adj = self.time_zone.adjust(self.local);
        let (_days, sod) = split_days(adj.seconds);
        (sod % 60) as i8
    }

    /// Millisecond of second of the adjusted value; the adjustment never
    /// touches the sub-second component.
    pub fn millisecond(&self) -> (r: i16)
        requires
            self.wf(),
        ensures
            r == self.local.millisecond,
    {
        let adj = self.time_zone.adjust(self.local);
        adj.millisecond as i16
    }
}

/// Whether text begins with a date, `T`, and a time in the combined
/// grammar: four year digits, two month digits and two day digits
/// separated by `-`, then two digits each for hour, minute and second
/// separated by `:`.
pub open spec fn valid_zoned_prefix(s: Seq<char>) -> bool {
    &&& s.len() >= 19
    &&& is_digit_char(s[0]) && is_digit_char(s[1]) && is_digit_char(s[2]) && is_digit_char(s[3])
    &&& s[4] == '-' && is_digit_char(s[5]) && is_digit_char(s[6])
    &&& s[7] == '-' && is_digit_char(s[8]) && is_digit_char(s[9])
    &&& s[10] == 'T' && is_digit_char(s[11]) && is_digit_char(s[12])
    &&& s[13] == ':' && is_digit_char(s[14]) && is_digit_char(s[15])
    &&& s[16] == ':' && is_digit_char(s[17]) && is_digit_char(s[18])
}

/// Whether text matches the combined grammar whole: a date-time prefix
/// followed by a zone designator.
pub open spec fn valid_zoned_text(s: Seq<char>) -> bool {
    valid_zoned_prefix(s) && valid_zone_text(s.subrange(19, s.len() as int))
}

/// The year digits of combined text.
pub open spec fn text_year(s: Seq<char>) -> int {
    digit_val(s[0]) * 1000 + digit_val(s[1]) * 100 + digit_val(s[2]) * 10 + digit_val(s[3])
}

/// The month digits of combined text.
pub open spec fn text_month(s: Seq<char>) -> int {
    digit_val(s[5]) * 10 + digit_val(s[6])
}

/// The day digits of combined text.
pub open spec fn text_day(s: Seq<char>) -> int {
    digit_val(s[8]) * 10 + digit_val(s[9])
}

/// The hour digits of combined text.
pub open spec fn text_hour(s: Seq<char>) -> int {
    digit_val(s[11]) * 10 + digit_val(s[12])
}

/// The minute digits of combined text.
pub open spec fn text_minute(s: Seq<char>) -> int {
    digit_val(s[14]) * 10 + digit_val(s[15])
}

/// The second digits of combined text.
pub open spec fn text_second(s: Seq<char>) -> int {
    digit_val(s[17]) * 10 + digit_val(s[18])
}

/// Whether the calendar and clock fields of combined text are in range:
/// a real calendar date and a time of day.
pub open spec fn text_fields_in_range(s: Seq<char>) -> bool {
    &&& valid_civil_date(text_year(s), text_month(s), text_day(s))
    &&& text_hour(s) <= 23
    &&& text_minute(s) <= 59
    &&& text_second(s) <= 59
}

/// The naive second count the date-time prefix of combined text encodes.
pub open spec fn spec_zoned_seconds(s: Seq<char>) -> int {
    spec_days_from_civil(text_year(s), text_month(s), text_day(s)) * 86400 + text_hour(s) * 3600
        + text_minute(s) * 60 + text_second(s)
}

impl ZonedDateTime {
    /// Parses a combined date, time and zone designator: text outside
    /// the grammar fails with [`ParseError::Parse`]; an impossible date
    /// or time of day with [`ParseError::Date`]; a bad zone designator
    /// with the zone's own error. On success the naive value encodes the
    /// date and time of the text and the zone is the designator's.
    pub fn from_str(input: &str) -> (r: Result<ZonedDateTime, ParseError>)
        ensures
            !valid_zoned_text(input@) ==> r == Err::<ZonedDateTime, ParseError>(ParseError::Parse),
            valid_zoned_text(input@) && !text_fields_in_range(input@) ==> r == Err::<
                ZonedDateTime,
                ParseError,
            >(ParseError::Date),
            valid_zoned_text(input@) && text_fields_in_range(input@) ==> {
                let zf = spec_from_fields(
                    spec_zone_fields_of_text(input@.subrange(19, input@.len() as int)),
                );
                &&& (r is Ok <==> zf is Ok)
                &&& (r is Ok ==> r->Ok_0.local.seconds == spec_zoned_seconds(input@)
                    && r->Ok_0.local.millisecond == 0 && r->Ok_0.time_zone@ == zf->Ok_0
                    && r->Ok_0.wf())
                &&& (r is Err ==> r->Err_0 == zf->Err_0)
            },
    {
        let n: usize = input.unicode_len();
        if n < 19 {
            return Err(ParseError::Parse);
        }
        if !(is_digit(input.get_char(0)) && is_digit(input.get_char(1)) && is_digit(
            input.get_char(2),
        ) && is_digit(input.get_char(3))) {
            return Err(ParseError::Parse);
        }
        if !(input.get_char(4) == '-' && is_digit(input.get_char(5)) && is_digit(
            input.get_char(6),
        )) {
            return Err(ParseError::Parse);
        }
        if !(input.get_char(7) == '-' && is_digit(input.get_char(8)) && is_digit(
            input.get_char(9),
        )) {
            return Err(ParseError::Parse);
        }
        if !(input.get_char(10) == 'T' && is_digit(input.get_char(11)) && is_digit(
            input.get_char(12),
        )) {
            return Err(ParseError::Parse);
        }
        if !(input.get_char(13) == ':' && is_digit(input.get_char(14)) && is_digit(
            input.get_char(15),
        )) {
            return Err(ParseError::Parse);
        }
        if !(input.get_char(16) == ':' && is_digit(input.get_char(17)) && is_digit(
            input.get_char(18),
        )) {
            return Err(ParseError::Parse);
        }
        let zone_text = input.substring_char(19, n);
        let zone_fields = match parse_iso_8601_zone(zone_text) {
            Ok(f) => f,
            Err(e) => {
                return Err(e);
            },
        };
        let year: i64 = ((input.get_char(0) as u32 - 48) * 1000 + (input.get_char(1) as u32 - 48)
            * 100 + (input.get_char(2) as u32 - 48) * 10 + (input.get_char(3) as u32 - 48)) as i64;
        let month: u8 = ((input.get_char(5) as u32 - 48) * 10 + (input.get_char(6) as u32
            - 48)) as u8;
        let day: u8 = ((input.get_char(8) as u32 - 48) * 10 + (input.get_char(9) as u32
            - 48)) as u8;
        let hour: u8 = ((input.get_char(11) as u32 - 48) * 10 + (input.get_char(12) as u32
            - 48)) as u8;
        let minute: u8 = ((input.get_char(14) as u32 - 48) * 10 + (input.get_char(15) as u32
            - 48)) as u8;
        let second: u8 = ((input.get_char(17) as u32 - 48) * 10 + (input.get_char(18) as u32
            - 48)) as u8;
        if month < 1 || month > 12 {
            return Err(ParseError::Date);
        }
        if day < 1 || (day as i64) > days_in_month(year, month) {
            return Err(ParseError::Date);
        }
        if hour > 23 || minute > 59 || second > 59 {
            return Err(ParseError::Date);
        }
        let zone = match TimeZone::from_fields(zone_fields) {
            Ok(z) => z,
            Err(e) => {
                return Err(e);
            },
        };
        let days: i64 = days_from_civil(year, month, day);
        let seconds: i64 = days * 86400 + (hour as i64) * 3600 + (minute as i64) * 60 + (
        second as i64);
        let local = LocalDateTime { seconds, millisecond: 0 };
        Ok(ZonedDateTime { local, time_zone: zone })
    }
}

} // verus!

