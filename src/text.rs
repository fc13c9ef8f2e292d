use vstd::prelude::*;
use vstd::string::StringExecFns;
use crate::action::{Action, ActionKind, Index, Identifier, kind_name, chars_of, word_len};

verus! {

/// A decimal digit.
pub open spec fn is_digit(c: char) -> bool {
    '0' <= c <= '9'
}

/// Every character is a decimal digit.
pub open spec fn all_digits(s: Seq<char>) -> bool {
    forall|i: int| 0 <= i < s.len() ==> is_digit(#[trigger] s[i])
}

/// The number that decimal digits write.
pub open spec fn digits_value(s: Seq<char>) -> int
    decreases s.len(),
{
    if s.len() == 0 {
        0
    } else {
        digits_value(s.drop_last()) * 10 + (s.last() as int - '0' as int)
    }
}

/// The integer that text writes in decimal with an optional sign, if it
/// writes one: at least one digit and nothing else.
pub open spec fn signed_value(s: Seq<char>) -> Option<int> {
    if s.len() > 0 && (s[0] == '-' || s[0] == '+') {
        let d = s.drop_first();
        if d.len() > 0 && all_digits(d) {
            Some(if s[0] == '-' { -digits_value(d) } else { digits_value(d) })
        } else {
            None
        }
    } else if s.len() > 0 && all_digits(s) {
        Some(digits_value(s))
    } else {
        None
    }
}

/// An integer that fits in `i64`.
pub open spec fn fits_i64(v: int) -> bool {
    i64::MIN <= v <= i64::MAX
}

proof fn lemma_digits_grow(s: Seq<char>, k: int)
    requires
        all_digits(s),
        0 <= k <= s.len(),
    ensures
        0 <= digits_value(s.subrange(0, k)) <= digits_value(s),
    decreases s.len(),
{
    if s.len() > 0 {
        let p = s.drop_last();
        assert(all_digits(p)) by {
            assert forall|i: int| 0 <= i < p.len() implies is_digit(#[trigger] p[i]) by {
                assert(p[i] == s[i]);
            }
        }
        assert(is_digit(s[s.len() - 1]));
        if k == s.len() {
            assert(s.subrange(0, k) =~= s);
            lemma_digits_grow(p, p.len() as int);
            assert(p.subrange(0, p.len() as int) =~= p);
        } else {
            lemma_digits_grow(p, k);
            assert(p.subrange(0, k) =~= s.subrange(0, k));
            lemma_digits_grow(p, p.len() as int);
            assert(p.subrange(0, p.len() as int) =~= p);
        }
    } else {
        assert(s.subrange(0, k) =~= s);
    }
}

/// Reads an integer written in decimal with an optional sign, or `None`
/// where the text writes none or it does not fit in `i64`.
pub fn parse_i64(s: &[char]) -> (r: Option<i64>)
    ensures
        r is Some <==> signed_value(s@) is Some && fits_i64(signed_value(s@)->Some_0),
        r matches Some(v) ==> v == signed_value(s@)->Some_0,
{
    let n = s.len();
    if n == 0 {
        return None;
    }
    let neg = s[0] == '-';
    let start: usize = if s[0] == '-' || s[0] == '+' {
        1
    } else {
        0
    };
    if start == n {
        return None;
    }
    let ghost d = s@.subrange(start as int, n as int);
    proof {
        if start == 1 {
            assert(d =~= s@.drop_first());
        } else {
            assert(d =~= s@);
        }
    }
    let limit: u64 = 0x8000_0000_0000_0000;
    let mut acc: u64 = 0;
    let mut i: usize = start;
    while i < n
        invariant
            0 <= start <= i <= n,
            start < n,
            start == 0 || start == 1,
            n == s@.len(),
            d == s@.subrange(start as int, n as int),
            start == 1 ==> d == s@.drop_first() && (s@[0] == '-' || s@[0] == '+'),
            start == 0 ==> d == s@ && !(s@[0] == '-' || s@[0] == '+'),
            neg == (s@[0] == '-'),
            forall|j: int| start <= j < i ==> is_digit(#[trigger] s@[j]),
            acc == digits_value(s@.subrange(start as int, i as int)),
            limit == 0x8000_0000_0000_0000u64,
            acc <= limit,
        decreases n - i,
    {
        let c = s[i];
        if !('0' <= c && c <= '9') {
            proof {
                assert(!is_digit(d[i - start]));
                assert(!all_digits(d));
            }
            return None;
        }
        let digit = (c as u32 - '0' as u32) as u64;
        proof {
            let p = s@.subrange(start as int, i + 1);
            assert(p.drop_last() =~= s@.subrange(start as int, i as int));
        }
        assert(digit <= 9);
        if acc > (limit - digit) / 10 {
            proof {
                let p = s@.subrange(start as int, i + 1);
                assert(digits_value(p) == acc * 10 + digit);
                assert(digits_value(p) > limit);
                if all_digits(d) {
                    assert(d.subrange(0, i + 1 - start) =~= p);
                    lemma_digits_grow(d, i + 1 - start);
                }
            }
            return None;
        }
        acc = acc * 10 + digit;
        i = i + 1;
    }
    proof {
        assert(all_digits(d)) by {
            assert forall|j: int| 0 <= j < d.len() implies is_digit(#[trigger] d[j]) by {
                assert(d[j] == s@[start + j]);
            }
        }
    }
    if neg {
        if acc == limit {
            Some(i64::MIN)
        } else {
            Some(-(acc as i64))
        }
    } else if acc < limit {
        Some(acc as i64)
    } else {
        None
    }
}

/// Relies on String::push: appends one character.
#[verifier::external_body]
pub(crate) fn push_char(s: &mut String, c: char)
    ensures
        final(s)@ == old(s)@.push(c),
{
    s.push(c)
}

/// Whether `c` is a letter; the result depends on the character alone.
pub uninterp spec fn alphabetic(c: char) -> bool;

/// Whether `c` is a letter: every ASCII letter is, no decimal digit is, and
/// for other characters [`alphabetic`] says.
pub open spec fn letter(c: char) -> bool {
    if 'a' <= c <= 'z' || 'A' <= c <= 'Z' {
        true
    } else if '0' <= c <= '9' {
        false
    } else {
        alphabetic(c)
    }
}

/// Relies on char::is_alphabetic: whether the character has Unicode's
/// Alphabetic property; ASCII letters have it and decimal digits do not.
#[verifier::external_body]
fn is_letter(c: char) -> (r: bool)
    ensures
        r == letter(c),
        !('a' <= c <= 'z' || 'A' <= c <= 'Z' || '0' <= c <= '9') ==> r == alphabetic(c),
{
    c.is_alphabetic()
}

/// Milliseconds in one unit of a duration: seconds, minutes, hours or days.
pub open spec fn unit_millis(c: char) -> Option<int> {
    if c == 's' || c == 'S' {
        Some(1000)
    } else if c == 'm' || c == 'M' {
        Some(60000)
    } else if c == 'h' || c == 'H' {
        Some(3600000)
    } else if c == 'd' || c == 'D' {
        Some(86400000)
    } else {
        None
    }
}

/// What reading a duration gives: the milliseconds that it names, a whole
/// number of milliseconds or a number followed by a unit letter, where zero
/// of any unit stands for the longest duration there is; or the message of
/// what is wrong with it. A duration is never negative.
pub open spec fn duration_outcome(s: Seq<char>) -> Result<int, Seq<char>> {
    if s.len() == 0 {
        Err("empty string"@)
    } else if letter(s.last()) {
        let v = signed_value(s.drop_last());
        let f = unit_millis(s.last());
        if !(v is Some && fits_i64(v->Some_0)) {
            Err("invalid number"@)
        } else if f is None {
            Err("invalid time unit ("@.push(s.last()) + ")"@)
        } else if v->Some_0 < 0 {
            Err("time was negative!"@)
        } else if v->Some_0 == 0 {
            Ok(i64::MAX as int)
        } else if !fits_i64(v->Some_0 * f->Some_0) {
            Err("time too large (overflow)"@)
        } else {
            Ok(v->Some_0 * f->Some_0)
        }
    } else {
        let v = signed_value(s);
        if !(v is Some && fits_i64(v->Some_0)) {
            Err("invalid number"@)
        } else if v->Some_0 < 0 {
            Err("time was negative!"@)
        } else if v->Some_0 == 0 {
            Err("time was zero!"@)
        } else {
            Ok(v->Some_0)
        }
    }
}

fn text_of(s: &str) -> (r: String)
    ensures
        r@ == s@,
{
    s.to_owned()
}

/// Reads a duration such as `1500`, `30s`, `15m`, `3h` or `2d` as
/// milliseconds. It is an error for the text to name no duration, for the
/// result not to fit in `i64`, or for it to be negative or zero; the error says
/// which.
pub fn duration_to_num(arg: &str) -> (r: Result<i64, String>)
    ensures
        r is Ok <==> duration_outcome(arg@) is Ok,
        r matches Ok(v) ==> duration_outcome(arg@) == Ok::<int, Seq<char>>(v as int),
        r matches Err(e) ==> duration_outcome(arg@) == Err::<int, Seq<char>>(e@),
        r matches Ok(v) ==> v > 0,
{
    let cs = chars_of(arg);
    let n = cs.len();
    if n == 0 {
        return Err(text_of("empty string"));
    }
    let last = cs[n - 1];
    let value: i64 = if is_letter(last) {
        let body = vstd::slice::slice_subrange(cs.as_slice(), 0, n - 1);
        proof {
            assert(body@ =~= cs@.drop_last());
        }
        let num = match parse_i64(body) {
            Some(v) => v,
            None => {
                return Err(text_of("invalid number"));
            },
        };
        let factor: i64 = if last == 's' || last == 'S' {
            1000
        } else if last == 'm' || last == 'M' {
            60000
        } else if last == 'h' || last == 'H' {
            3600000
        } else if last == 'd' || last == 'D' {
            86400000
        } else {
            let mut message = text_of("invalid time unit (");
            push_char(&mut message, last);
            message.append(")");
            return Err(message);
        };
        if num < 0 {
            return Err(text_of("time was negative!"));
        }
        if num == 0 {
            i64::MAX
        } else {
            match num.checked_mul(factor) {
                Some(v) => v,
                None => {
                    return Err(text_of("time too large (overflow)"));
                },
            }
        }
    } else {
        match parse_i64(cs.as_slice()) {
            Some(v) => {
                if v < 0 {
                    return Err(text_of("time was negative!"));
                }
                v
            },
            None => {
                return Err(text_of("invalid number"));
            },
        }
    };
    if value == 0 {
        return Err(text_of("time was zero!"));
    }
    Ok(value)
}

/// Text cut at each tab into fields; `n` tabs make `n + 1` fields.
pub open spec fn split_tabs(s: Seq<char>) -> Seq<Seq<char>>
    decreases s.len(),
{
    if s.len() == 0 {
        seq![Seq::empty()]
    } else {
        let p = split_tabs(s.drop_last());
        if s.last() == '\t' {
            p.push(Seq::empty())
        } else {
            p.update(p.len() - 1, p.last().push(s.last()))
        }
    }
}

/// A coordinate field: a decimal number that fits in `u32`.
pub open spec fn coord_value(f: Seq<char>) -> Option<u32> {
    if signed_value(f) is Some && 0 <= signed_value(f)->Some_0 <= u32::MAX {
        Some(signed_value(f)->Some_0 as u32)
    } else {
        None
    }
}

/// A palette index field: `-1` for transparent, else a decimal index that
/// fits in both `i64` and `usize`.
pub open spec fn index_value(f: Seq<char>) -> Option<Index> {
    if f == "-1"@ {
        Some(Index::Transparent)
    } else if signed_value(f) is Some && 0 <= signed_value(f)->Some_0 <= usize::MAX
        && signed_value(f)->Some_0 <= i64::MAX {
        Some(Index::Color(signed_value(f)->Some_0 as usize))
    } else {
        None
    }
}

/// A user field: empty, or text that reads as an identifier.
pub open spec fn user_ok(f: Seq<char>) -> bool {
    f.len() == 0 || (word_len(f) == 32 && f.len() == 32) || (word_len(f) != 32 && f.len() == 64)
}

/// The fields make a record: a timestamp in milliseconds, a user, the two
/// coordinates, the palette index and the kind's name.
pub open spec fn record_ok(f: Seq<Seq<char>>) -> bool {
    &&& f.len() == 6
    &&& signed_value(f[0]) is Some
    &&& fits_i64(signed_value(f[0])->Some_0)
    &&& user_ok(f[1])
    &&& coord_value(f[2]) is Some
    &&& coord_value(f[3]) is Some
    &&& index_value(f[4]) is Some
    &&& exists|k: ActionKind| kind_name(k) == f[5]
}

/// The fields of a line, cut at each tab.
fn split_fields(cs: &[char]) -> (r: Vec<Vec<char>>)
    ensures
        r@.map_values(|v: Vec<char>| v@) == split_tabs(cs@),
{
    let mut done: Vec<Vec<char>> = Vec::new();
    let mut cur: Vec<char> = Vec::new();
    let mut i: usize = 0;
    while i < cs.len()
        invariant
            0 <= i <= cs@.len(),
            done@.map_values(|v: Vec<char>| v@).push(cur@) == split_tabs(cs@.subrange(0, i as int)),
        decreases cs@.len() - i,
    {
        let c = cs[i];
        proof {
            assert(cs@.subrange(0, i + 1).drop_last() =~= cs@.subrange(0, i as int));
        }
        if c == '\t' {
            let field = cur;
            done.push(field);
            cur = Vec::new();
            assert(done@.map_values(|v: Vec<char>| v@).push(cur@) =~= split_tabs(cs@.subrange(0, i + 1)));
        } else {
            cur.push(c);
            assert(done@.map_values(|v: Vec<char>| v@).push(cur@) =~= split_tabs(cs@.subrange(0, i + 1)));
        }
        i = i + 1;
    }
    done.push(cur);
    assert(cs@.subrange(0, cs@.len() as int) =~= cs@);
    assert(done@.map_values(|v: Vec<char>| v@) =~= split_tabs(cs@));
    done
}

/// A string of the given characters.
fn string_of(cs: &[char]) -> (r: String)
    ensures
        r@ == cs@,
{
    let mut out = String::new();
    let mut i: usize = 0;
    while i < cs.len()
        invariant
            0 <= i <= cs@.len(),
            out@ == cs@.subrange(0, i as int),
        decreases cs@.len() - i,
    {
        push_char(&mut out, cs[i]);
        assert(out@ =~= cs@.subrange(0, i + 1));
        i = i + 1;
    }
    assert(cs@.subrange(0, cs@.len() as int) =~= cs@);
    out
}

/// Reads one record: a timestamp in milliseconds, a user (empty where not
/// known), x, y, the palette index (`-1` for transparent) and the kind's
/// name, separated by tabs. `None` where the fields do not make a record.
pub fn parse_action_line(line: &str) -> (r: Option<Action>)
    ensures
        r is Some <==> record_ok(split_tabs(line@)),
        r matches Some(a) ==> {
            let f = split_tabs(line@);
            &&& a.time == signed_value(f[0])->Some_0
            &&& a.x == coord_value(f[2])->Some_0
            &&& a.y == coord_value(f[3])->Some_0
            &&& a.index == index_value(f[4])
            &&& a.kind matches Some(k) && kind_name(k) == f[5]
            &&& (a.user is None <==> f[1].len() == 0)
            &&& a.user matches Some(Identifier::Hash(h)) ==> h@ == f[1]
            &&& a.user matches Some(Identifier::Username(u)) ==> u@ == f[1]
            &&& a.user matches Some(id) ==> (id is Username <==> word_len(f[1]) == 32 && f[1].len()
                == 32)
        },
{
    proof {
        reveal_strlit("-1");
    }
    let cs = chars_of(line);
    let fields = split_fields(cs.as_slice());
    let ghost f = split_tabs(line@);
    proof {
        assert(f.len() == fields@.len());
        assert forall|j: int| 0 <= j < fields@.len() implies fields@[j]@ == f[j] by {}
    }
    if fields.len() != 6 {
        return None;
    }
    let time = match parse_i64(fields[0].as_slice()) {
        Some(t) => t,
        None => {
            return None;
        },
    };
    let user = if fields[1].len() == 0 {
        None
    } else {
        let text = string_of(fields[1].as_slice());
        match Identifier::try_from(text.as_str()) {
            Ok(id) => Some(id),
            Err(_) => {
                return None;
            },
        }
    };
    let x = match parse_i64(fields[2].as_slice()) {
        Some(v) => {
            if v < 0 || v > u32::MAX as i64 {
                return None;
            }
            v as u32
        },
        None => {
            return None;
        },
    };
    let y = match parse_i64(fields[3].as_slice()) {
        Some(v) => {
            if v < 0 || v > u32::MAX as i64 {
                return None;
            }
            v as u32
        },
        None => {
            return None;
        },
    };
    let f4 = &fields[4];
    let index = if f4.len() == 2 && f4[0] == '-' && f4[1] == '1' {
        assert(f4@ =~= "-1"@);
        Index::Transparent
    } else {
        assert(f4@ != "-1"@) by {
            if f4@ == "-1"@ {
                assert(f4@.len() == 2 && f4@[0] == '-' && f4@[1] == '1');
            }
        }
        match parse_i64(f4.as_slice()) {
            Some(v) => {
                if v < 0 || v as u64 > usize::MAX as u64 {
                    return None;
                }
                Index::Color(v as usize)
            },
            None => {
                return None;
            },
        }
    };
    let name = string_of(fields[5].as_slice());
    let kind = match ActionKind::try_from(name.as_str()) {
        Ok(k) => k,
        Err(_) => {
            return None;
        },
    };
    Some(Action { time, user, x, y, index: Some(index), kind: Some(kind) })
}

/// Whether two texts are the same.
pub(crate) fn same_text(a: &str, b: &str) -> (r: bool)
    ensures
        r == (a@ == b@),
{
    a.to_owned() == b.to_owned()
}

} // verus!
