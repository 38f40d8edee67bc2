//! The token file line format: the four token fields joined by commas, each
//! line ending in a comma — `access,refresh,expires,created,`. An absent
//! refresh token is an empty field; an absent lifetime is written `0` and
//! read back as absent together with every non-positive lifetime.

use vstd::prelude::*;

use crate::errors::VaultError;
use crate::token::{AccessTokens, AccessTokensView};

verus! {

/// The decimal digit character for `d` (meaningful for `d < 10`).
pub open spec fn digit_char(d: nat) -> char {
    if d == 0 {
        '0'
    } else if d == 1 {
        '1'
    } else if d == 2 {
        '2'
    } else if d == 3 {
        '3'
    } else if d == 4 {
        '4'
    } else if d == 5 {
        '5'
    } else if d == 6 {
        '6'
    } else if d == 7 {
        '7'
    } else if d == 8 {
        '8'
    } else {
        '9'
    }
}

/// The value of a decimal digit character, or nothing.
pub open spec fn digit_of(c: char) -> Option<nat> {
    if c == '0' {
        Some(0 as nat)
    } else if c == '1' {
        Some(1 as nat)
    } else if c == '2' {
        Some(2 as nat)
    } else if c == '3' {
        Some(3 as nat)
    } else if c == '4' {
        Some(4 as nat)
    } else if c == '5' {
        Some(5 as nat)
    } else if c == '6' {
        Some(6 as nat)
    } else if c == '7' {
        Some(7 as nat)
    } else if c == '8' {
        Some(8 as nat)
    } else if c == '9' {
        Some(9 as nat)
    } else {
        None
    }
}

/// The decimal digits of `n`, most significant first.
pub open spec fn dec_digits(n: nat) -> Seq<char>
    decreases n,
{
    if n < 10 {
        seq![digit_char(n)]
    } else {
        dec_digits(n / 10).push(digit_char(n % 10))
    }
}

/// The decimal notation of an integer, with a leading minus when negative.
pub open spec fn i64_chars(n: int) -> Seq<char> {
    if n < 0 {
        seq!['-'] + dec_digits((-n) as nat)
    } else {
        dec_digits(n as nat)
    }
}

/// The value of an all-digits character sequence, or nothing when the
/// sequence is empty or holds any non-digit.
pub open spec fn digits_val(s: Seq<char>) -> Option<nat>
    decreases s.len(),
{
    if s.len() == 0 {
        None
    } else if s.len() == 1 {
        digit_of(s[0])
    } else {
        match (digits_val(s.drop_last()), digit_of(s.last())) {
            (Some(v), Some(d)) => Some(10 * v + d),
            _ => None,
        }
    }
}

/// The comma-separated fields of a line. A line always has one more field
/// than it has commas; an empty line is one empty field.
pub open spec fn fields_of(s: Seq<char>) -> Seq<Seq<char>>
    decreases s.len(),
{
    if s.len() == 0 {
        seq![Seq::<char>::empty()]
    } else {
        let rest = fields_of(s.drop_last());
        if s.last() == ',' {
            rest.push(Seq::empty())
        } else {
            rest.update(rest.len() - 1, rest.last().push(s.last()))
        }
    }
}

/// The refresh field as written: the token, or empty when absent.
pub open spec fn refresh_field(r: Option<Seq<char>>) -> Seq<char> {
    match r {
        Some(s) => s,
        None => Seq::empty(),
    }
}

/// The lifetime as written: the seconds, or `0` when never-expiring.
pub open spec fn expires_field(e: Option<int>) -> int {
    match e {
        Some(v) => v,
        None => 0,
    }
}

/// The serialized form of a token: its four fields joined by commas, with a
/// trailing comma.
pub open spec fn token_line(t: AccessTokensView) -> Seq<char> {
    t.access_token + seq![','] + refresh_field(t.refresh_token) + seq![','] + i64_chars(
        expires_field(t.expires_in),
    ) + seq![','] + i64_chars(t.created_timestamp) + seq![',']
}

/// What parsing a line returns: the token it denotes, or `Corrupt`. A line
/// denotes a token when it has exactly four commas, nothing after the last,
/// and all-digits lifetime and creation fields that fit the machine range.
/// An empty refresh field is an absent refresh token; a zero lifetime is an
/// absent lifetime.
pub open spec fn parse_line_spec(s: Seq<char>) -> Result<AccessTokensView, VaultError> {
    let fs = fields_of(s);
    if fs.len() != 5 || fs[4].len() != 0 {
        Err(VaultError::Corrupt)
    } else {
        match (digits_val(fs[2]), digits_val(fs[3])) {
            (Some(e), Some(c)) => {
                if e <= i64::MAX as nat && c <= i64::MAX as nat {
                    Ok(
                        AccessTokensView {
                            access_token: fs[0],
                            refresh_token: if fs[1].len() == 0 {
                                None
                            } else {
                                Some(fs[1])
                            },
                            expires_in: if e > 0 {
                                Some(e as int)
                            } else {
                                None
                            },
                            created_timestamp: c as int,
                        },
                    )
                } else {
                    Err(VaultError::Corrupt)
                }
            },
            _ => Err(VaultError::Corrupt),
        }
    }
}

/// The decimal digit character for a digit value.
fn digit_str(d: u64) -> (r: &'static str)
    requires
        d < 10,
    ensures
        r@ == seq![digit_char(d as nat)],
{
    let r: &'static str = if d == 0 {
        "0"
    } else if d == 1 {
        "1"
    } else if d == 2 {
        "2"
    } else if d == 3 {
        "3"
    } else if d == 4 {
        "4"
    } else if d == 5 {
        "5"
    } else if d == 6 {
        "6"
    } else if d == 7 {
        "7"
    } else if d == 8 {
        "8"
    } else {
        "9"
    };
    proof {
        reveal_strlit("0");
        reveal_strlit("1");
        reveal_strlit("2");
        reveal_strlit("3");
        reveal_strlit("4");
        reveal_strlit("5");
        reveal_strlit("6");
        reveal_strlit("7");
        reveal_strlit("8");
        reveal_strlit("9");
        assert(r@ =~= seq![digit_char(d as nat)]);
    }
    r
}

/// The decimal notation of an unsigned value.
fn u64_to_string(n: u64) -> (r: String)
    ensures
        r@ == dec_digits(n as nat),
    decreases n,
{
    if n < 10 {
        String::from_str(digit_str(n))
    } else {
        let r = u64_to_string(n / 10).concat(digit_str(n % 10));
        proof {
            assert(r@ =~= dec_digits(n as nat));
        }
        r
    }
}

/// The decimal notation of a signed value.
fn i64_to_string(n: i64) -> (r: String)
    ensures
        r@ == i64_chars(n as int),
{
    if n >= 0 {
        u64_to_string(n as u64)
    } else {
        let mag: u64 = if n == i64::MIN {
            9223372036854775808u64
        } else {
            (-n) as u64
        };
        proof {
            assert(mag as nat == (-(n as int)) as nat);
        }
        let r = String::from_str("-").concat(u64_to_string(mag).as_str());
        proof {
            reveal_strlit("-");
            assert(("-")@ =~= seq!['-']);
            assert(r@ =~= i64_chars(n as int));
        }
        r
    }
}

/// Serializes a token as one line of the token file.
pub fn token_to_line(token: &AccessTokens) -> (r: String)
    ensures
        r@ == token_line(token@),
{
    proof {
        reveal_strlit(",");
        assert((",")@ =~= seq![',']);
    }
    let mut s = token.access_token.clone();
    s.append(",");
    match &token.refresh_token {
        Some(rt) => s.append(rt.as_str()),
        None => (),
    }
    s.append(",");
    let e: i64 = match token.expires_in {
        Some(e) => e,
        None => 0,
    };
    let es = i64_to_string(e);
    s.append(es.as_str());
    s.append(",");
    let cs = i64_to_string(token.created_timestamp);
    s.append(cs.as_str());
    s.append(",");
    proof {
        assert(s@ =~= token_line(token@));
    }
    s
}

/// A sequence holding any non-digit has no digits value.
proof fn lemma_nondigit(s: Seq<char>, j: int)
    requires
        0 <= j < s.len(),
        digit_of(s[j]) is None,
    ensures
        digits_val(s) is None,
    decreases s.len(),
{
    if s.len() > 1 {
        if j < s.len() - 1 {
            lemma_nondigit(s.drop_last(), j);
        }
    }
}

/// A digits value only grows as digits are appended.
proof fn lemma_digits_val_mono(s: Seq<char>, i: int)
    requires
        1 <= i <= s.len(),
        digits_val(s) is Some,
    ensures
        digits_val(s.subrange(0, i)) is Some,
        digits_val(s.subrange(0, i)).unwrap() <= digits_val(s).unwrap(),
    decreases s.len() - i,
{
    if i == s.len() {
        assert(s.subrange(0, i) =~= s);
    } else {
        lemma_digits_val_mono(s, i + 1);
        let p = s.subrange(0, i + 1);
        assert(p.drop_last() =~= s.subrange(0, i));
        assert(digits_val(p) is Some);
        if p.len() == 1 {
            assert(p[0] == s.subrange(0, i + 1)[0]);
        }
    }
}

/// Parses an all-digits field, rejecting values beyond the machine range.
fn parse_u63(s: &str) -> (r: Option<i64>)
    ensures
        match digits_val(s@) {
            Some(v) => {
                if v <= i64::MAX as nat {
                    r == Some(v as i64)
                } else {
                    r is None
                }
            },
            None => r is None,
        },
{
    let n: usize = s.unicode_len();
    if n == 0 {
        return None;
    }
    let mut acc: u64 = 0;
    let mut i: usize = 0;
    while i < n
        invariant
            n == s@.len(),
            1 <= n,
            i <= n,
            i > 0 ==> digits_val(s@.subrange(0, i as int)) == Some(acc as nat),
            i == 0 ==> acc == 0,
            acc <= i64::MAX as u64,
        decreases n - i,
    {
        let c = s.get_char(i);
        let d: u64 = if c == '0' {
            0
        } else if c == '1' {
            1
        } else if c == '2' {
            2
        } else if c == '3' {
            3
        } else if c == '4' {
            4
        } else if c == '5' {
            5
        } else if c == '6' {
            6
        } else if c == '7' {
            7
        } else if c == '8' {
            8
        } else if c == '9' {
            9
        } else {
            proof {
                lemma_nondigit(s@, i as int);
            }
            return None;
        };
        proof {
            assert(digit_of(s@[i as int]) == Some(d as nat));
        }
        let next: u64 = if i == 0 {
            d
        } else {
            let stepped = match acc.checked_mul(10) {
                Some(m) => m.checked_add(d),
                None => None,
            };
            match stepped {
                Some(v) => v,
                None => {
                    proof {
                        let p = s@.subrange(0, i + 1 as int);
                        assert(p.drop_last() =~= s@.subrange(0, i as int));
                        assert(p.last() == s@[i as int]);
                        assert(p.len() > 1);
                        assert(digits_val(p) == Some((10 * (acc as nat) + d as nat) as nat));
                        if digits_val(s@) is Some {
                            lemma_digits_val_mono(s@, i + 1);
                        }
                    }
                    return None;
                },
            }
        };
        if next > 9223372036854775807u64 {
            proof {
                let p = s@.subrange(0, i + 1 as int);
                if i > 0 {
                    assert(p.drop_last() =~= s@.subrange(0, i as int));
                    assert(p.last() == s@[i as int]);
                    assert(digits_val(p) == Some((10 * (acc as nat) + d as nat) as nat));
                } else {
                    assert(p =~= seq![s@[0]]);
                }
                if digits_val(s@) is Some {
                    lemma_digits_val_mono(s@, i + 1);
                }
            }
            return None;
        }
        acc = next;
        proof {
            let p = s@.subrange(0, i + 1 as int);
            if i > 0 {
                assert(p.drop_last() =~= s@.subrange(0, i as int));
                assert(p.last() == s@[i as int]);
            } else {
                assert(p =~= seq![s@[0]]);
            }
        }
        i += 1;
    }
    proof {
        assert(s@.subrange(0, n as int) =~= s@);
    }
    Some(acc as i64)
}

/// Parses one line of the token file. Returns the token the line denotes,
/// or `Corrupt` when the line is not of the form
/// `access,refresh,expires,created,` with numeric lifetime and creation
/// fields.
pub fn parse_token_line(line: &str) -> (r: Result<AccessTokens, VaultError>)
    ensures
        match r {
            Ok(t) => parse_line_spec(line@) == Ok::<AccessTokensView, VaultError>(t@),
            Err(e) => parse_line_spec(line@) == Err::<AccessTokensView, VaultError>(e),
        },
{
    let n: usize = line.unicode_len();
    let mut fields: Vec<String> = Vec::new();
    let mut cur = String::new();
    proof {
        assert(fields@.map_values(|f: String| f@).push(cur@) =~= fields_of(
            line@.subrange(0, 0),
        ));
    }
    let mut i: usize = 0;
    while i < n
        invariant
            n == line@.len(),
            i <= n,
            fields@.map_values(|f: String| f@).push(cur@) == fields_of(line@.subrange(0, i as int)),
        decreases n - i,
    {
        let ghost prev_fields = fields@.map_values(|f: String| f@);
        let c = line.get_char(i);
        proof {
            assert(line@.subrange(0, i + 1 as int).drop_last() =~= line@.subrange(0, i as int));
            assert(line@.subrange(0, i + 1 as int).last() == line@[i as int]);
        }
        if c == ',' {
            fields.push(cur);
            cur = String::new();
            proof {
                assert(fields@.map_values(|f: String| f@) =~= prev_fields.push(
                    fields@[fields@.len() - 1]@,
                ));
                assert(fields@.map_values(|f: String| f@).push(cur@) =~= fields_of(
                    line@.subrange(0, i + 1 as int),
                ));
            }
        } else {
            crate::crypto::push_char(&mut cur, c);
            proof {
                let fs = fields_of(line@.subrange(0, i as int));
                assert(fields@.map_values(|f: String| f@).push(cur@) =~~= fs.update(
                    fs.len() - 1,
                    fs.last().push(line@[i as int]),
                ));
            }
        }
        i += 1;
    }
    proof {
        assert(line@.subrange(0, n as int) =~= line@);
    }
    fields.push(cur);
    proof {
        assert(fields@.map_values(|f: String| f@) =~= fields_of(line@));
    }
    if fields.len() != 5 {
        return Err(VaultError::Corrupt);
    }
    if !fields[4].as_str().is_empty() {
        return Err(VaultError::Corrupt);
    }
    let expires_raw = match parse_u63(fields[2].as_str()) {
        Some(v) => v,
        None => {
            return Err(VaultError::Corrupt);
        },
    };
    let created = match parse_u63(fields[3].as_str()) {
        Some(v) => v,
        None => {
            return Err(VaultError::Corrupt);
        },
    };
    let refresh: Option<String> = if fields[1].as_str().is_empty() {
        None
    } else {
        Some(fields[1].clone())
    };
    let expires_in: Option<i64> = if expires_raw > 0 {
        Some(expires_raw)
    } else {
        None
    };
    let t = AccessTokens {
        access_token: fields[0].clone(),
        refresh_token: refresh,
        expires_in,
        created_timestamp: created,
    };
    proof {
        assert(t@ =~= parse_line_spec(line@).unwrap());
    }
    Ok(t)
}


/// A token whose serialized line reads back as the same token: its string
/// fields hold no comma, an absent refresh token is never written as an
/// empty present one, a lifetime is positive, and the creation time is a
/// representable non-negative count of seconds.
pub open spec fn token_wf(t: AccessTokensView) -> bool {
    &&& forall|i: int| 0 <= i < t.access_token.len() ==> t.access_token[i] != ','
    &&& match t.refresh_token {
        Some(r) => r.len() > 0 && forall|i: int| 0 <= i < r.len() ==> r[i] != ',',
        None => true,
    }
    &&& match t.expires_in {
        Some(e) => 0 < e <= i64::MAX as int,
        None => true,
    }
    &&& 0 <= t.created_timestamp <= i64::MAX as int
}

/// The digits of a value read back as that value.
proof fn lemma_digits_roundtrip(n: nat)
    ensures
        digits_val(dec_digits(n)) == Some(n),
    decreases n,
{
    if n < 10 {
    } else {
        lemma_digits_roundtrip(n / 10);
        let s = dec_digits(n);
        assert(s.drop_last() =~= dec_digits(n / 10));
        assert(s.last() == digit_char(n % 10));
        assert(s.len() > 1);
        assert(digit_of(digit_char((n % 10) as nat)) == Some((n % 10) as nat));
        assert(10 * (n / 10) + n % 10 == n) by (nonlinear_arith);
    }
}

/// Decimal digits contain no comma.
proof fn lemma_dec_digits_no_comma(n: nat)
    ensures
        forall|i: int| 0 <= i < dec_digits(n).len() ==> dec_digits(n)[i] != ',',
    decreases n,
{
    if n < 10 {
    } else {
        lemma_dec_digits_no_comma(n / 10);
        assert forall|i: int| 0 <= i < dec_digits(n).len() implies dec_digits(n)[i] != ',' by {
            if i < dec_digits(n).len() - 1 {
                assert(dec_digits(n)[i] == dec_digits(n / 10)[i]);
            }
        }
    }
}

/// A comma-free line is one field.
proof fn lemma_fields_single(f: Seq<char>)
    requires
        forall|i: int| 0 <= i < f.len() ==> f[i] != ',',
    ensures
        fields_of(f) == seq![f],
    decreases f.len(),
{
    if f.len() == 0 {
        assert(fields_of(f) =~~= seq![f]);
    } else {
        lemma_fields_single(f.drop_last());
        assert(fields_of(f) =~~= seq![f]);
    }
}

/// A line always has at least one field.
proof fn lemma_fields_len(s: Seq<char>)
    ensures
        fields_of(s).len() >= 1,
    decreases s.len(),
{
    if s.len() > 0 {
        lemma_fields_len(s.drop_last());
    }
}

/// Appending a comma-free run extends the last field and nothing else.
proof fn lemma_fields_append_nocomma(s: Seq<char>, f: Seq<char>)
    requires
        forall|i: int| 0 <= i < f.len() ==> f[i] != ',',
    ensures
        fields_of(s).len() >= 1,
        fields_of(s + f) == fields_of(s).update(
            fields_of(s).len() - 1,
            fields_of(s).last() + f,
        ),
    decreases f.len(),
{
    lemma_fields_len(s);
    if f.len() == 0 {
        assert(s + f =~= s);
        assert(fields_of(s).update(fields_of(s).len() - 1, fields_of(s).last() + f) =~~= fields_of(
            s,
        ));
    } else {
        lemma_fields_append_nocomma(s, f.drop_last());
        assert((s + f).drop_last() =~= s + f.drop_last());
        assert((s + f).last() == f.last());
        let prev = fields_of(s + f.drop_last());
        assert(fields_of(s + f) == prev.update(prev.len() - 1, prev.last().push(f.last())));
        assert(fields_of(s + f) =~~= fields_of(s).update(
            fields_of(s).len() - 1,
            fields_of(s).last() + f,
        ));
    }
}

/// A comma closes the current field and opens an empty one.
proof fn lemma_fields_push_comma(s: Seq<char>)
    ensures
        fields_of(s + seq![',']) == fields_of(s).push(Seq::<char>::empty()),
{
    assert((s + seq![',']).drop_last() =~= s);
    assert((s + seq![',']).last() == ',');
}

/// The serialized line of a well-formed token splits back into exactly its
/// four fields and the empty trailer.
proof fn lemma_token_line_fields(t: AccessTokensView)
    requires
        token_wf(t),
    ensures
        fields_of(token_line(t)) == seq![
            t.access_token,
            refresh_field(t.refresh_token),
            i64_chars(expires_field(t.expires_in)),
            i64_chars(t.created_timestamp),
            Seq::<char>::empty(),
        ],
{
    let acc = t.access_token;
    let rf = refresh_field(t.refresh_token);
    let es = i64_chars(expires_field(t.expires_in));
    let cs = i64_chars(t.created_timestamp);
    assert(expires_field(t.expires_in) >= 0);
    assert(es == dec_digits(expires_field(t.expires_in) as nat));
    assert(cs == dec_digits(t.created_timestamp as nat));
    lemma_dec_digits_no_comma(expires_field(t.expires_in) as nat);
    lemma_dec_digits_no_comma(t.created_timestamp as nat);

    lemma_fields_single(acc);
    let s1 = acc + seq![','];
    lemma_fields_push_comma(acc);
    assert(fields_of(s1) =~~= seq![acc, Seq::<char>::empty()]);
    let s2 = s1 + rf;
    lemma_fields_append_nocomma(s1, rf);
    assert(fields_of(s2) =~~= seq![acc, rf]);
    let s3 = s2 + seq![','];
    lemma_fields_push_comma(s2);
    assert(fields_of(s3) =~~= seq![acc, rf, Seq::<char>::empty()]);
    let s4 = s3 + es;
    lemma_fields_append_nocomma(s3, es);
    assert(fields_of(s4) =~~= seq![acc, rf, es]);
    let s5 = s4 + seq![','];
    lemma_fields_push_comma(s4);
    assert(fields_of(s5) =~~= seq![acc, rf, es, Seq::<char>::empty()]);
    let s6 = s5 + cs;
    lemma_fields_append_nocomma(s5, cs);
    assert(fields_of(s6) =~~= seq![acc, rf, es, cs]);
    let s7 = s6 + seq![','];
    lemma_fields_push_comma(s6);
    assert(fields_of(s7) =~~= seq![acc, rf, es, cs, Seq::<char>::empty()]);
    assert(token_line(t) =~= s7);
}

/// Round trip of the token file line: parsing the serialized form of a
/// well-formed token yields that token.
pub proof fn lemma_token_line_roundtrip(t: AccessTokensView)
    requires
        token_wf(t),
    ensures
        parse_line_spec(token_line(t)) == Ok::<AccessTokensView, VaultError>(t),
{
    lemma_token_line_fields(t);
    let e = expires_field(t.expires_in);
    lemma_digits_roundtrip(e as nat);
    lemma_digits_roundtrip(t.created_timestamp as nat);
    let parsed = parse_line_spec(token_line(t));
    assert(parsed is Ok);
    assert(parsed.unwrap() =~= t);
}

} // verus!
