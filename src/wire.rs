//! Text formats at the hub's edges: the compact `timestamp,value,...`
//! payload that announces a result, and the JSON text that a consumer
//! receives for each broadcast frame.

use vstd::prelude::*;
use vstd::string::{StrSliceExecFns, StringExecFns};
use crate::hub::ClientMessage;

verus! {

/// The comma-separated fields of `s`; there is always at least one.
pub open spec fn split_fields(s: Seq<char>) -> Seq<Seq<char>>
    decreases s.len(),
{
    if s.len() == 0 {
        seq![Seq::empty()]
    } else {
        let init = split_fields(s.drop_last());
        if s.last() == ',' {
            init.push(Seq::empty())
        } else {
            init.update(init.len() - 1, init.last().push(s.last()))
        }
    }
}

pub proof fn lemma_split_fields_nonempty(s: Seq<char>)
    ensures
        split_fields(s).len() >= 1,
    decreases s.len(),
{
    if s.len() > 0 {
        lemma_split_fields_nonempty(s.drop_last());
    }
}

pub open spec fn is_digit(c: char) -> bool {
    '0' <= c && c <= '9'
}

/// `s` is a non-empty run of decimal digits.
pub open spec fn is_decimal(s: Seq<char>) -> bool {
    s.len() > 0 && forall|i: int| 0 <= i < s.len() ==> is_digit(#[trigger] s[i])
}

/// The number that the decimal digits `s` write.
pub open spec fn digits_value(s: Seq<char>) -> nat
    decreases s.len(),
{
    if s.len() == 0 {
        0
    } else {
        digits_value(s.drop_last()) * 10 + ((s.last() as u32) - ('0' as u32)) as nat
    }
}

/// The timestamp and the values that the payload `s` announces, if its
/// first field is a decimal number that fits 64 bits.
pub open spec fn payload_frame(s: Seq<char>) -> Option<(u64, Seq<Seq<char>>)> {
    let f = split_fields(s);
    if is_decimal(f[0]) && digits_value(f[0]) <= u64::MAX {
        Some((digits_value(f[0]) as u64, f.skip(1)))
    } else {
        None
    }
}

/// A prefix of digits writes a number no larger than the whole.
pub proof fn lemma_digits_value_prefix(s: Seq<char>, j: int)
    requires
        0 <= j <= s.len(),
        forall|i: int| 0 <= i < s.len() ==> is_digit(#[trigger] s[i]),
    ensures
        digits_value(s.take(j)) <= digits_value(s),
    decreases s.len(),
{
    if j < s.len() {
        let p = s.drop_last();
        assert(p.take(j) =~= s.take(j));
        assert forall|i: int| 0 <= i < p.len() implies is_digit(#[trigger] p[i]) by {
            assert(p[i] == s[i]);
        }
        lemma_digits_value_prefix(p, j);
    } else {
        assert(s.take(j) =~= s);
    }
}

/// Reads the decimal digits `s` as a number, where they write one that fits
/// 64 bits.
pub fn parse_u64(s: &str) -> (r: Option<u64>)
    ensures
        r == (if is_decimal(s@) && digits_value(s@) <= u64::MAX {
            Some(digits_value(s@) as u64)
        } else {
            None
        }),
{
    let n = s.unicode_len();
    if n == 0 {
        return None;
    }
    let mut v: u64 = 0;
    let mut i: usize = 0;
    assert(s@.take(0) =~= Seq::<char>::empty());
    while i < n
        invariant
            n == s@.len(),
            i <= n,
            v as nat == digits_value(s@.take(i as int)),
            forall|j: int| 0 <= j < i ==> is_digit(#[trigger] s@[j]),
        decreases n - i,
    {
        let c = s.get_char(i);
        if !('0' <= c && c <= '9') {
            return None;
        }
        let d: u64 = ((c as u32) - ('0' as u32)) as u64;
        proof {
            assert(s@.take(i + 1).drop_last() =~= s@.take(i as int));
            assert(s@.take(i + 1).last() == c);
        }
        match v.checked_mul(10) {
            None => {
                proof {
                    if is_decimal(s@) {
                        lemma_digits_value_prefix(s@, i + 1);
                    }
                }
                return None;
            },
            Some(t) => match t.checked_add(d) {
                None => {
                    proof {
                        if is_decimal(s@) {
                            lemma_digits_value_prefix(s@, i + 1);
                        }
                    }
                    return None;
                },
                Some(w) => {
                    v = w;
                },
            },
        }
        i = i + 1;
    }
    assert(s@.take(n as int) =~= s@);
    Some(v)
}

/// Splits `s` into its comma-separated fields.
pub fn split_fields_of(s: &str) -> (r: Vec<String>)
    ensures
        r@.map_values(|x: String| x@) == split_fields(s@),
{
    let n = s.unicode_len();
    let mut fields: Vec<String> = Vec::new();
    let mut start: usize = 0;
    let mut i: usize = 0;
    assert(s@.take(0) =~= Seq::<char>::empty());
    assert(split_fields(Seq::<char>::empty()) =~= seq![s@.subrange(0, 0)]);
    while i < n
        invariant
            n == s@.len(),
            start <= i <= n,
            split_fields(s@.take(i as int)) == fields@.map_values(|x: String| x@).push(
                s@.subrange(start as int, i as int),
            ),
        decreases n - i,
    {
        let c = s.get_char(i);
        let ghost done = fields@.map_values(|x: String| x@);
        proof {
            assert(s@.take(i + 1).drop_last() =~= s@.take(i as int));
            assert(s@.take(i + 1).last() == c);
        }
        if c == ',' {
            let field = String::from_str(s.substring_char(start, i));
            fields.push(field);
            proof {
                assert(fields@.map_values(|x: String| x@) =~= done.push(
                    s@.subrange(start as int, i as int),
                ));
                assert(s@.subrange(i + 1, i + 1) =~= Seq::<char>::empty());
            }
            start = i + 1;
        } else {
            proof {
                assert(s@.subrange(start as int, i + 1) =~= s@.subrange(start as int, i as int).push(
                    c,
                ));
                assert(split_fields(s@.take(i + 1)) =~= done.push(
                    s@.subrange(start as int, i + 1),
                ));
            }
        }
        i = i + 1;
    }
    let ghost done = fields@.map_values(|x: String| x@);
    let last = String::from_str(s.substring_char(start, n));
    fields.push(last);
    proof {
        assert(s@.take(n as int) =~= s@);
        assert(fields@.map_values(|x: String| x@) =~= done.push(s@.subrange(start as int, n as int)));
    }
    fields
}

/// The frame that a result announcement `payload` describes: its first field
/// is the timestamp, the others are the values. `None` where the first field
/// is not a decimal number that fits 64 bits.
pub fn parse_frame(payload: &str) -> (r: Option<ClientMessage>)
    ensures
        match payload_frame(payload@) {
            None => r is None,
            Some((ts, vals)) => r matches Some(ClientMessage::Data { timestamp, values })
                && timestamp == ts && values@.map_values(|x: String| x@) == vals,
        },
{
    let mut fields = split_fields_of(payload);
    proof {
        lemma_split_fields_nonempty(payload@);
    }
    let ghost f = fields@.map_values(|x: String| x@);
    let timestamp = match parse_u64(fields[0].as_str()) {
        Some(t) => t,
        None => {
            return None;
        },
    };
    let ghost before = fields@;
    fields.remove(0);
    proof {
        assert(fields@.map_values(|x: String| x@) =~= f.skip(1));
    }
    Some(ClientMessage::Data { timestamp, values: fields })
}


/// The JSON string literal for `s`, quotes and escapes included, as
/// serde_json writes it.
pub uninterp spec fn json_quoted(s: Seq<char>) -> Seq<char>;

/// Relies on serde_json::to_string applied to a string slice: it writes the
/// JSON string literal for `s`, which depends on `s` alone. Writing a `str`
/// into memory does not fail.
#[verifier::external_body]
fn quote_json(s: &str) -> (r: String)
    ensures
        r@ == json_quoted(s@),
{
    serde_json::to_string(s).unwrap_or_default()
}

/// Relies on String::push: it appends `c` at the end of `s`.
#[verifier::external_body]
fn push_char(s: &mut String, c: char)
    ensures
        final(s)@ == old(s)@.push(c),
{
    s.push(c)
}

/// The character of the decimal digit `d`.
pub open spec fn digit_char(d: nat) -> char {
    if d == 0 {
        '0'
    } else if d == 1 {
        '1'
    } else if d == 2 {
        '2'
    } else if d == 3 {
        '3'
    } else if d == 4 {
        '4'
    } else if d == 5 {
        '5'
    } else if d == 6 {
        '6'
    } else if d == 7 {
        '7'
    } else if d == 8 {
        '8'
    } else {
        '9'
    }
}

/// `n` in decimal, without leading zeros.
pub open spec fn decimal_of(n: nat) -> Seq<char>
    decreases n,
{
    if n < 10 {
        seq![digit_char(n)]
    } else {
        decimal_of(n / 10).push(digit_char(n % 10))
    }
}

/// A number written in decimal reads back as itself.
pub proof fn law_decimal_round_trip(n: nat)
    ensures
        is_decimal(decimal_of(n)),
        digits_value(decimal_of(n)) == n,
    decreases n,
{
    let d = n % 10;
    assert((digit_char(d) as u32) - ('0' as u32) == d && is_digit(digit_char(d)));
    if n >= 10 {
        law_decimal_round_trip(n / 10);
        let p = decimal_of(n / 10);
        let s = decimal_of(n);
        assert(s.drop_last() =~= p);
        assert forall|i: int| 0 <= i < s.len() implies is_digit(#[trigger] s[i]) by {
            if i < p.len() {
                assert(s[i] == p[i]);
            }
        }
        assert(s.last() == digit_char(d));
        assert(digits_value(s) == digits_value(p) * 10 + d);
        assert(n == (n / 10) * 10 + n % 10);
        assert(digits_value(p) == n / 10);
        assert(digits_value(s) == n);
    } else {
        let s = decimal_of(n);
        assert(s.drop_last() =~= Seq::<char>::empty());
        assert(n % 10 == n);
        assert(digits_value(s.drop_last()) == 0);
        assert(s.last() == digit_char(n));
        assert(digits_value(s) == ((digit_char(n) as u32) - ('0' as u32)) as nat);
    }
}

fn digit(d: u64) -> (c: char)
    requires
        d < 10,
    ensures
        c == digit_char(d as nat),
{
    if d == 0 {
        '0'
    } else if d == 1 {
        '1'
    } else if d == 2 {
        '2'
    } else if d == 3 {
        '3'
    } else if d == 4 {
        '4'
    } else if d == 5 {
        '5'
    } else if d == 6 {
        '6'
    } else if d == 7 {
        '7'
    } else if d == 8 {
        '8'
    } else {
        '9'
    }
}

/// `v` in decimal.
pub fn decimal_text(v: u64) -> (r: String)
    ensures
        r@ == decimal_of(v as nat),
    decreases v,
{
    if v < 10 {
        let mut s = String::new();
        push_char(&mut s, digit(v));
        proof {
            assert(s@ =~= seq![digit_char(v as nat)]);
        }
        s
    } else {
        let mut s = decimal_text(v / 10);
        push_char(&mut s, digit(v % 10));
        s
    }
}

/// The items joined by commas.
pub open spec fn joined(items: Seq<Seq<char>>) -> Seq<char>
    decreases items.len(),
{
    if items.len() == 0 {
        Seq::empty()
    } else if items.len() == 1 {
        items[0]
    } else {
        joined(items.drop_last()) + ","@ + items.last()
    }
}

/// The JSON object of a frame, from its timestamp and its values already
/// written as JSON string literals: `{"timestamp":<ts>,"values":[<v>,...]}`.
pub open spec fn frame_json(timestamp: u64, quoted: Seq<Seq<char>>) -> Seq<char> {
    "{\"timestamp\":"@ + decimal_of(timestamp as nat) + ",\"values\":["@ + joined(quoted) + "]}"@
}

/// Writes the JSON object of a frame from its timestamp and its values,
/// each already written as a JSON string literal.
pub fn frame_text(timestamp: u64, quoted_values: &Vec<String>) -> (r: String)
    ensures
        r@ == frame_json(timestamp, quoted_values@.map_values(|x: String| x@)),
{
    let ghost q = quoted_values@.map_values(|x: String| x@);
    let mut list = String::new();
    let mut i: usize = 0;
    assert(q.take(0) =~= Seq::<Seq<char>>::empty());
    while i < quoted_values.len()
        invariant
            q == quoted_values@.map_values(|x: String| x@),
            i <= q.len(),
            list@ == joined(q.take(i as int)),
        decreases quoted_values.len() - i,
    {
        proof {
            assert(q.take(i + 1).drop_last() =~= q.take(i as int));
            assert(q.take(i + 1).last() == q[i as int]);
        }
        if i > 0 {
            list.append(",");
        }
        list.append(quoted_values[i].as_str());
        proof {
            if i == 0 {
                assert(list@ =~= q.take(1)[0]);
            }
        }
        i = i + 1;
    }
    proof {
        assert(q.take(q.len() as int) =~= q);
    }
    let mut r = String::from_str("{\"timestamp\":");
    let ts = decimal_text(timestamp);
    r.append(ts.as_str());
    r.append(",\"values\":[");
    r.append(list.as_str());
    r.append("]}");
    r
}

impl ClientMessage {
    /// The JSON text that a consumer receives for this message.
    pub fn to_json(&self) -> (r: String)
        ensures
            match self {
                ClientMessage::Data { timestamp, values } => r@ == frame_json(
                    *timestamp,
                    values@.map_values(|x: String| json_quoted(x@)),
                ),
            },
    {
        match self {
            ClientMessage::Data { timestamp, values } => {
                let mut quoted: Vec<String> = Vec::new();
                let mut i: usize = 0;
                while i < values.len()
                    invariant
                        i <= values@.len(),
                        quoted@.len() == i,
                        forall|t: int|
                            0 <= t < i ==> (#[trigger] quoted@[t])@ == json_quoted(values@[t]@),
                    decreases values.len() - i,
                {
                    quoted.push(quote_json(values[i].as_str()));
                    i = i + 1;
                }
                let r = frame_text(*timestamp, &quoted);
                proof {
                    assert(quoted@.map_values(|x: String| x@) =~= values@.map_values(
                        |x: String| json_quoted(x@),
                    ));
                }
                r
            },
        }
    }
}
} // verus!
