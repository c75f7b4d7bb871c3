//! The output provider: parsing of the display-server query output.
//!
//! Running the query utility and issuing configuration commands are I/O and
//! live in the surrounding program; this module turns the raw query output
//! into screens and builds the utility's argument lists.
//!
//! A screen line reads `NAME connected [primary ]WxH+X+Y ...`: a name token,
//! a single space, the word `connected` and a space, optionally `primary`
//! and a space, then the active geometry. Lines of any other shape are
//! skipped; a line whose geometry cannot be used (a coordinate missing or
//! out of range, a non-ASCII name, a name seen twice) makes the whole query
//! malformed.

use vstd::prelude::*;

use crate::screen::{distinct_names, Location, Screen};

verus! {

/// Failures of the display-server capability.
#[derive(Clone, Copy, Debug, PartialEq, Eq, Structural)]
pub enum ProviderError {
    /// The query call failed or returned malformed data. The previous
    /// topology remains the effective one.
    QueryFailed,
    /// A configuration call for one output failed.
    ApplyFailed,
}

/// The display-server utility, as far as its in- and output can be computed:
/// parsing its query output and building its command-line arguments.
pub struct Xrandr;

/// What one line of query output yields.
pub ghost enum LineParse {
    /// Not a connected-output line.
    Skipped,
    /// A connected-output line with unusable geometry or name.
    Malformed,
    /// A connected output.
    Parsed(ParsedScreen),
}

/// The hardware-derived fields read off one connected-output line.
pub ghost struct ParsedScreen {
    pub name: Seq<char>,
    pub primary: bool,
    pub resolution: (u16, u16),
    pub position: (u16, u16),
}

/// What a whole query output yields.
pub ghost enum QueryParse {
    /// Malformed: the caller must not touch the topology.
    Bad,
    /// The connected outputs, in output order.
    Good(Seq<ParsedScreen>),
}

/// A decimal digit byte.
pub open spec fn is_digit(c: u8) -> bool {
    0x30 <= c <= 0x39
}

/// First index at or after `i` (up to `end`) that ends a name token: a space
/// or the end.
pub open spec fn tok_end(b: Seq<u8>, i: int, end: int) -> int
    decreases end - i,
{
    if i < end && b[i] != 0x20u8 {
        tok_end(b, i + 1, end)
    } else {
        i
    }
}

/// First index at or after `i` (up to `end`) holding a non-digit.
pub open spec fn dig_end(b: Seq<u8>, i: int, end: int) -> int
    decreases end - i,
{
    if i < end && is_digit(b[i]) {
        dig_end(b, i + 1, end)
    } else {
        i
    }
}

/// Value of the decimal digits `b[i..j]`.
pub open spec fn digits_val(b: Seq<u8>, i: int, j: int) -> nat
    decreases j - i,
{
    if j <= i {
        0
    } else {
        digits_val(b, i, j - 1) * 10 + (b[j - 1] - 0x30) as nat
    }
}

/// The bytes at `i` read `connected ` and stay within `end`.
pub open spec fn connected_at(b: Seq<u8>, i: int, end: int) -> bool {
    &&& i + 10 <= end
    &&& b[i] == 0x63u8
    &&& b[i + 1] == 0x6fu8
    &&& b[i + 2] == 0x6eu8
    &&& b[i + 3] == 0x6eu8
    &&& b[i + 4] == 0x65u8
    &&& b[i + 5] == 0x63u8
    &&& b[i + 6] == 0x74u8
    &&& b[i + 7] == 0x65u8
    &&& b[i + 8] == 0x64u8
    &&& b[i + 9] == 0x20u8
}

/// The bytes at `i` read `primary ` and stay within `end`.
pub open spec fn primary_at(b: Seq<u8>, i: int, end: int) -> bool {
    &&& i + 8 <= end
    &&& b[i] == 0x70u8
    &&& b[i + 1] == 0x72u8
    &&& b[i + 2] == 0x69u8
    &&& b[i + 3] == 0x6du8
    &&& b[i + 4] == 0x61u8
    &&& b[i + 5] == 0x72u8
    &&& b[i + 6] == 0x79u8
    &&& b[i + 7] == 0x20u8
}

/// The bytes `b[s..e]` are ASCII.
pub open spec fn name_ascii(b: Seq<u8>, s: int, e: int) -> bool {
    forall|k: int| s <= k < e ==> b[k] < 0x80
}

/// The bytes `b[s..e]` as characters.
pub open spec fn ascii_chars(b: Seq<u8>, s: int, e: int) -> Seq<char> {
    b.subrange(s, e).map_values(|c: u8| c as char)
}

/// What the line `b[start..end]` yields.
pub open spec fn line_parse(b: Seq<u8>, start: int, end: int) -> LineParse {
    let ne = tok_end(b, start, end);
    if ne == start || ne >= end {
        LineParse::Skipped
    } else if !connected_at(b, ne + 1, end) {
        LineParse::Skipped
    } else {
        let g0 = ne + 11;
        let prim = primary_at(b, g0, end);
        let g = if prim {
            g0 + 8
        } else {
            g0
        };
        let we = dig_end(b, g, end);
        if we == g || we >= end || b[we] != 0x78u8 {
            LineParse::Skipped
        } else {
            let he = dig_end(b, we + 1, end);
            if he == we + 1 || he >= end || b[he] != 0x2bu8 {
                LineParse::Skipped
            } else {
                let xe = dig_end(b, he + 1, end);
                if xe == he + 1 || xe >= end || b[xe] != 0x2bu8 {
                    LineParse::Skipped
                } else {
                    let ye = dig_end(b, xe + 1, end);
                    if ye == xe + 1 {
                        LineParse::Malformed
                    } else if digits_val(b, g, we) > 65535 || digits_val(b, we + 1, he) > 65535
                        || digits_val(b, he + 1, xe) > 65535 || digits_val(b, xe + 1, ye)
                        > 65535 {
                        LineParse::Malformed
                    } else if !name_ascii(b, start, ne) {
                        LineParse::Malformed
                    } else {
                        LineParse::Parsed(
                            ParsedScreen {
                                name: ascii_chars(b, start, ne),
                                primary: prim,
                                resolution: (
                                    digits_val(b, g, we) as u16,
                                    digits_val(b, we + 1, he) as u16,
                                ),
                                position: (
                                    digits_val(b, he + 1, xe) as u16,
                                    digits_val(b, xe + 1, ye) as u16,
                                ),
                            },
                        )
                    }
                }
            }
        }
    }
}

/// First index at or after `i` holding a line feed, or the length.
pub open spec fn next_nl(b: Seq<u8>, i: int) -> int
    decreases b.len() - i,
{
    if i < b.len() && b[i] != 0x0au8 {
        next_nl(b, i + 1)
    } else {
        i
    }
}

/// `next_nl` never runs backwards and never past the end.
pub proof fn lemma_next_nl(b: Seq<u8>, i: int)
    ensures
        i <= next_nl(b, i),
        i <= b.len() ==> next_nl(b, i) <= b.len(),
    decreases b.len() - i,
{
    if i < b.len() && b[i] != 0x0au8 {
        lemma_next_nl(b, i + 1);
    }
}

/// What the lines from `pos` on yield, combined: any malformed line spoils
/// the whole query, skipped lines vanish, parsed screens keep line order.
pub open spec fn parse_from(b: Seq<u8>, pos: int) -> QueryParse
    decreases b.len() + 1 - pos,
    via parse_from_dec
{
    if pos >= b.len() {
        QueryParse::Good(Seq::empty())
    } else {
        let e = next_nl(b, pos);
        let head = line_parse(b, pos, e);
        let rest = parse_from(b, e + 1);
        match head {
            LineParse::Malformed => QueryParse::Bad,
            LineParse::Skipped => rest,
            LineParse::Parsed(p) => match rest {
                QueryParse::Bad => QueryParse::Bad,
                QueryParse::Good(ps) => QueryParse::Good(seq![p] + ps),
            },
        }
    }
}

#[via_fn]
proof fn parse_from_dec(b: Seq<u8>, pos: int) {
    if pos < b.len() {
        lemma_next_nl(b, pos);
    }
}

/// No two parsed screens share a name.
pub open spec fn distinct_parsed(ps: Seq<ParsedScreen>) -> bool {
    forall|i: int, j: int| 0 <= i < j < ps.len() ==> ps[i].name != ps[j].name
}

/// What a whole query output yields: its connected outputs, unless a line is
/// malformed or a name occurs twice.
pub open spec fn screens_parse(b: Seq<u8>) -> QueryParse {
    match parse_from(b, 0) {
        QueryParse::Bad => QueryParse::Bad,
        QueryParse::Good(ps) => if distinct_parsed(ps) {
            QueryParse::Good(ps)
        } else {
            QueryParse::Bad
        },
    }
}

/// The screen `s` carries exactly the parsed fields, with no proposal.
pub open spec fn screen_matches(s: Screen, p: ParsedScreen) -> bool {
    &&& s.name@ == p.name
    &&& s.is_primary == p.primary
    &&& s.resolution == p.resolution
    &&& s.position == p.position
    &&& s.new_position is None
    &&& s.location is None
}

/// Relies on `String::from_utf8_lossy`: ASCII bytes decode to exactly their
/// characters.
#[verifier::external_body]
fn ascii_to_string(bytes: Vec<u8>) -> (r: String)
    requires
        forall|k: int| 0 <= k < bytes@.len() ==> bytes@[k] < 0x80,
    ensures
        r@ == bytes@.map_values(|c: u8| c as char),
{
    String::from_utf8_lossy(&bytes).into_owned()
}

/// Scan a name token.
fn scan_token(b: &Vec<u8>, i: usize, end: usize) -> (r: usize)
    requires
        i <= end <= b@.len(),
    ensures
        r == tok_end(b@, i as int, end as int),
        i <= r <= end,
{
    let mut j = i;
    while j < end && b[j] != 0x20
        invariant
            i <= j <= end,
            end <= b@.len(),
            tok_end(b@, i as int, end as int) == tok_end(b@, j as int, end as int),
        decreases end - j,
    {
        j += 1;
    }
    j
}

/// Scan a decimal number; `None` when its digits are absent or its value
/// does not fit a screen coordinate.
fn scan_number(b: &Vec<u8>, i: usize, end: usize) -> (r: (usize, Option<u16>))
    requires
        i <= end <= b@.len(),
    ensures
        r.0 == dig_end(b@, i as int, end as int),
        i <= r.0 <= end,
        match r.1 {
            Some(v) => r.0 > i && v as nat == digits_val(b@, i as int, r.0 as int),
            None => r.0 == i || digits_val(b@, i as int, r.0 as int) > 65535,
        },
{
    let mut j = i;
    let mut val: u32 = 0;
    let mut big = false;
    while j < end && b[j] >= 0x30 && b[j] <= 0x39
        invariant
            i <= j <= end,
            end <= b@.len(),
            dig_end(b@, i as int, end as int) == dig_end(b@, j as int, end as int),
            big ==> digits_val(b@, i as int, j as int) > 65535,
            !big ==> val as nat == digits_val(b@, i as int, j as int) && val <= 65535,
        decreases end - j,
    {
        let d = (b[j] - 0x30) as u32;
        proof {
            assert(digits_val(b@, i as int, j as int + 1) == digits_val(b@, i as int, j as int)
                * 10 + (b@[j as int] - 0x30) as nat);
        }
        if !big {
            val = val * 10 + d;
            if val > 65535 {
                big = true;
            }
        }
        j += 1;
    }
    if big || j == i {
        (j, None)
    } else {
        (j, Some(val as u16))
    }
}

/// The bytes at `i` read `connected `.
fn match_connected(b: &Vec<u8>, i: usize, end: usize) -> (r: bool)
    requires
        i <= end <= b@.len(),
    ensures
        r == connected_at(b@, i as int, end as int),
{
    if end - i < 10 {
        return false;
    }
    b[i] == 0x63 && b[i + 1] == 0x6f && b[i + 2] == 0x6e && b[i + 3] == 0x6e && b[i + 4] == 0x65
        && b[i + 5] == 0x63 && b[i + 6] == 0x74 && b[i + 7] == 0x65 && b[i + 8] == 0x64 && b[i
        + 9] == 0x20
}

/// The bytes at `i` read `primary `.
fn match_primary(b: &Vec<u8>, i: usize, end: usize) -> (r: bool)
    requires
        i <= end <= b@.len(),
    ensures
        r == primary_at(b@, i as int, end as int),
{
    if end - i < 8 {
        return false;
    }
    b[i] == 0x70 && b[i + 1] == 0x72 && b[i + 2] == 0x69 && b[i + 3] == 0x6d && b[i + 4] == 0x61
        && b[i + 5] == 0x72 && b[i + 6] == 0x79 && b[i + 7] == 0x20
}

/// Parse one line of query output.
#[verifier::loop_isolation(false)]
fn parse_line(b: &Vec<u8>, start: usize, end: usize) -> (r: Result<Option<Screen>, ProviderError>)
    requires
        start <= end <= b@.len(),
    ensures
        match r {
            Ok(opt) => match opt {
                Some(s) => line_parse(b@, start as int, end as int) matches LineParse::Parsed(p)
                    && screen_matches(s, p),
                None => line_parse(b@, start as int, end as int) is Skipped,
            },
            Err(e) => e == ProviderError::QueryFailed && line_parse(
                b@,
                start as int,
                end as int,
            ) is Malformed,
        },
{
    let ne = scan_token(b, start, end);
    if ne == start || ne >= end {
        return Ok(None);
    }
    if !match_connected(b, ne + 1, end) {
        return Ok(None);
    }
    let g0 = ne + 11;
    let prim = match_primary(b, g0, end);
    let g = if prim {
        g0 + 8
    } else {
        g0
    };
    let (we, wv) = scan_number(b, g, end);
    if we == g || we >= end || b[we] != 0x78 {
        return Ok(None);
    }
    let (he, hv) = scan_number(b, we + 1, end);
    if he == we + 1 || he >= end || b[he] != 0x2b {
        return Ok(None);
    }
    let (xe, xv) = scan_number(b, he + 1, end);
    if xe == he + 1 || xe >= end || b[xe] != 0x2b {
        return Ok(None);
    }
    let (ye, yv) = scan_number(b, xe + 1, end);
    if ye == xe + 1 {
        return Err(ProviderError::QueryFailed);
    }
    let w = match wv {
        Some(v) => v,
        None => {
            return Err(ProviderError::QueryFailed);
        },
    };
    let h = match hv {
        Some(v) => v,
        None => {
            return Err(ProviderError::QueryFailed);
        },
    };
    let x = match xv {
        Some(v) => v,
        None => {
            return Err(ProviderError::QueryFailed);
        },
    };
    let y = match yv {
        Some(v) => v,
        None => {
            return Err(ProviderError::QueryFailed);
        },
    };
    let mut name_bytes: Vec<u8> = Vec::new();
    let mut k = start;
    while k < ne
        invariant
            start <= k <= ne <= b@.len(),
            name_bytes@ == b@.subrange(start as int, k as int),
            name_ascii(b@, start as int, k as int),
        decreases ne - k,
    {
        if b[k] >= 0x80 {
            proof {
                assert(!name_ascii(b@, start as int, ne as int));
            }
            return Err(ProviderError::QueryFailed);
        }
        name_bytes.push(b[k]);
        proof {
            assert(name_bytes@ =~= b@.subrange(start as int, k as int + 1));
        }
        k += 1;
    }
    let name = ascii_to_string(name_bytes);
    Ok(
        Some(
            Screen {
                name,
                is_primary: prim,
                resolution: (w, h),
                position: (x, y),
                new_position: None,
                location: None,
            },
        ),
    )
}

/// No two screens share a name.
pub fn names_distinct(v: &Vec<Screen>) -> (r: bool)
    ensures
        r == distinct_names(v@),
{
    let n = v.len();
    let mut i: usize = 0;
    while i < n
        invariant
            i <= n,
            n == v@.len(),
            forall|x: int, y: int| 0 <= x < y < n && x < i ==> v@[x].name@ != v@[y].name@,
        decreases n - i,
    {
        let mut j = i + 1;
        while j < n
            invariant
                i < j <= n,
                n == v@.len(),
                forall|y: int| i < y < j ==> v@[i as int].name@ != v@[y].name@,
            decreases n - j,
        {
            if v[i].name == v[j].name {
                return false;
            }
            j += 1;
        }
        i += 1;
    }
    true
}

impl Xrandr {
    /// Parse the whole query output into screens, in output order; a
    /// malformed connected-output line or a repeated name fails the query.
    pub fn parse_screens(output: &Vec<u8>) -> (r: Result<Vec<Screen>, ProviderError>)
        requires
            output@.len() < usize::MAX,
        ensures
            match r {
                Ok(v) => {
                    &&& screens_parse(output@) matches QueryParse::Good(ps) && v@.len()
                        == ps.len() && (forall|i: int|
                        0 <= i < ps.len() ==> screen_matches(#[trigger] v@[i], ps[i]))
                    &&& distinct_names(v@)
                },
                Err(e) => e == ProviderError::QueryFailed && screens_parse(output@) is Bad,
            },
    {
        let n = output.len();
        let mut acc: Vec<Screen> = Vec::new();
        let ghost mut done: Seq<ParsedScreen> = Seq::empty();
        let mut pos: usize = 0;
        while pos < n
            invariant
                n == output@.len(),
                n < usize::MAX,
                pos <= n + 1,
                acc@.len() == done.len(),
                forall|i: int| 0 <= i < done.len() ==> screen_matches(#[trigger] acc@[i], done[i]),
                parse_from(output@, pos as int) is Bad ==> parse_from(output@, 0) is Bad,
                forall|ps: Seq<ParsedScreen>|
                    parse_from(output@, pos as int) == QueryParse::Good(ps) ==> parse_from(
                        output@,
                        0,
                    ) == QueryParse::Good(done + ps),
            decreases n + 1 - pos,
        {
            let e = scan_nl(output, pos);
            match parse_line(output, pos, e) {
                Err(err) => {
                    proof {
                        assert(parse_from(output@, pos as int) is Bad);
                    }
                    return Err(err);
                },
                Ok(None) => {
                    proof {
                        assert(parse_from(output@, pos as int) == parse_from(
                            output@,
                            e as int + 1,
                        ));
                    }
                    pos = e + 1;
                },
                Ok(Some(s)) => {
                    let ghost p = line_parse(output@, pos as int, e as int)->Parsed_0;
                    acc.push(s);
                    proof {
                        let prev = done;
                        done = done.push(p);
                        assert forall|ps: Seq<ParsedScreen>|
                            parse_from(output@, e as int + 1) == QueryParse::Good(ps) implies
                            parse_from(output@, 0) == QueryParse::Good(done + ps) by {
                            assert(parse_from(output@, pos as int) == QueryParse::Good(
                                seq![p] + ps,
                            ));
                            assert(parse_from(output@, 0) == QueryParse::Good(
                                prev + (seq![p] + ps),
                            ));
                            assert(prev + (seq![p] + ps) =~= prev.push(p) + ps);
                        }
                        assert(parse_from(output@, e as int + 1) is Bad ==> parse_from(
                            output@,
                            pos as int,
                        ) is Bad);
                    }
                    pos = e + 1;
                },
            }
        }
        proof {
            assert(parse_from(output@, pos as int) == QueryParse::Good(Seq::empty()));
            assert(done + Seq::empty() =~= done);
            assert(parse_from(output@, 0) == QueryParse::Good(done));
        }
        if !names_distinct(&acc) {
            proof {
                assert(!distinct_parsed(done)) by {
                    let (x, y) = choose|x: int, y: int|
                        0 <= x < y < acc@.len() && acc@[x].name@ == acc@[y].name@;
                    assert(screen_matches(acc@[x], done[x]));
                    assert(screen_matches(acc@[y], done[y]));
                    assert(done[x].name == done[y].name);
                }
            }
            return Err(ProviderError::QueryFailed);
        }
        proof {
            assert(distinct_parsed(done)) by {
                assert forall|x: int, y: int| 0 <= x < y < done.len() implies done[x].name
                    != done[y].name by {
                    assert(screen_matches(acc@[x], done[x]));
                    assert(screen_matches(acc@[y], done[y]));
                    assert(acc@[x].name@ != acc@[y].name@);
                }
            }
        }
        Ok(acc)
    }

    /// The argument list for one relative-arrangement invocation of the
    /// display utility: both outputs set to their preferred mode, the
    /// secondary placed in the given direction relative to the primary.
    pub fn arrange_args(
        position: &Location,
        primary_screen_name: &String,
        screen_name: &String,
    ) -> (r: Vec<String>)
        ensures
            r@.len() == 8,
            r@[0]@ == "--auto"@,
            r@[1]@ == "--output"@,
            r@[2]@ == primary_screen_name@,
            r@[3]@ == "--auto"@,
            r@[4]@ == "--output"@,
            r@[5]@ == screen_name@,
            r@[6]@ == location_flag(*position),
            r@[7]@ == primary_screen_name@,
    {
        let mut v: Vec<String> = Vec::new();
        v.push("--auto".to_owned());
        v.push("--output".to_owned());
        v.push(primary_screen_name.clone());
        v.push("--auto".to_owned());
        v.push("--output".to_owned());
        v.push(screen_name.clone());
        v.push(flag_of(position).to_owned());
        v.push(primary_screen_name.clone());
        v
    }
}

/// Scan to the next line feed.
fn scan_nl(b: &Vec<u8>, pos: usize) -> (r: usize)
    requires
        pos <= b@.len(),
    ensures
        r == next_nl(b@, pos as int),
        pos <= r <= b@.len(),
{
    let n = b.len();
    let mut j = pos;
    while j < n && b[j] != 0x0a
        invariant
            pos <= j <= n,
            n == b@.len(),
            next_nl(b@, pos as int) == next_nl(b@, j as int),
        decreases n - j,
    {
        j += 1;
    }
    j
}

/// The relative-placement flag of a direction.
pub open spec fn location_flag(l: Location) -> Seq<char> {
    match l {
        Location::UP => "--above"@,
        Location::DOWN => "--below"@,
        Location::LEFT => "--left-of"@,
        Location::RIGHT => "--right-of"@,
    }
}

/// The relative-placement flag handed to the display utility.
pub fn flag_of(l: &Location) -> (r: &'static str)
    ensures
        r@ == location_flag(*l),
{
    match l {
        Location::UP => "--above",
        Location::DOWN => "--below",
        Location::LEFT => "--left-of",
        Location::RIGHT => "--right-of",
    }
}

} // verus!
