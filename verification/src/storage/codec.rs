//! The JSON text in which byte strings and stored records are kept.
//!
//! A byte string is written as a JSON array of decimal numbers, `[1,2,3]`,
//! and a stored record as the object `{"data":[...]}`, each in the compact
//! form that serde_json writes.
use vstd::prelude::*;
use vstd::utf8::valid_utf8;

verus! {

/// The decimal digits of `n`, most significant first, as ASCII bytes.
pub open spec fn decimal_json(n: nat) -> Seq<u8>
    decreases n,
{
    if n < 10 {
        seq![(48 + n) as u8]
    } else {
        decimal_json(n / 10).push((48 + n % 10) as u8)
    }
}

/// The decimals of the bytes of `s`, separated by commas.
pub open spec fn joined_decimals(s: Seq<u8>) -> Seq<u8>
    decreases s.len(),
{
    if s.len() == 0 {
        seq![]
    } else if s.len() == 1 {
        decimal_json(s[0] as nat)
    } else {
        joined_decimals(s.drop_last()) + seq![44u8] + decimal_json(s.last() as nat)
    }
}

/// The compact JSON array that stands for the byte string `s`.
pub open spec fn byte_array_json(s: Seq<u8>) -> Seq<u8> {
    seq![91u8] + joined_decimals(s) + seq![93u8]
}

/// Appends the decimal digits of `b`.
fn push_decimal(out: &mut Vec<u8>, b: u8)
    ensures
        final(out)@ == old(out)@ + decimal_json(b as nat),
{
    reveal_with_fuel(decimal_json, 3);
    if b >= 100 {
        out.push(48 + b / 100);
        out.push(48 + (b / 10) % 10);
        out.push(48 + b % 10);
        assert(decimal_json(b as nat) =~= seq![(48 + b / 100) as u8, (48 + (b / 10) % 10) as u8, (48 + b % 10) as u8]);
    } else if b >= 10 {
        out.push(48 + b / 10);
        out.push(48 + b % 10);
        assert(decimal_json(b as nat) =~= seq![(48 + b / 10) as u8, (48 + b % 10) as u8]);
    } else {
        out.push(48 + b);
        assert(decimal_json(b as nat) =~= seq![(48 + b) as u8]);
    }
    assert(final(out)@ =~= old(out)@ + decimal_json(b as nat));
}

/// Appends the JSON array for `data`.
pub fn push_byte_array_json(out: &mut Vec<u8>, data: &[u8])
    ensures
        final(out)@ == old(out)@ + byte_array_json(data@),
{
    let ghost start = out@;
    out.push(91);
    let mut i: usize = 0;
    while i < data.len()
        invariant
            i <= data@.len(),
            out@ == start + seq![91u8] + joined_decimals(data@.take(i as int)),
        decreases data@.len() - i,
    {
        let ghost before = out@;
        if i > 0 {
            out.push(44);
        }
        push_decimal(out, data[i]);
        assert(data@.take(i + 1).drop_last() =~= data@.take(i as int));
        assert(out@ =~= start + seq![91u8] + joined_decimals(data@.take(i + 1)));
        i = i + 1;
    }
    out.push(93);
    assert(data@.take(data@.len() as int) =~= data@);
    assert(out@ =~= start + byte_array_json(data@));
}

/// The bytes `{"data":` that open a stored record.
pub open spec fn record_open() -> Seq<u8> {
    seq![123u8, 34u8, 100u8, 97u8, 116u8, 97u8, 34u8, 58u8]
}

/// The compact JSON object that stands for a stored record holding `data`.
pub open spec fn record_json(data: Seq<u8>) -> Seq<u8> {
    record_open() + byte_array_json(data) + seq![125u8]
}

/// What serde_json reads from the JSON text `text` as a `Vec<u8>`: the
/// byte string, or the debug text of its error.
pub uninterp spec fn json_byte_array_parse(text: Seq<u8>) -> Result<Seq<u8>, Seq<char>>;

/// Where `text` is the compact array written for some byte string, `r` is
/// that byte string.
pub open spec fn reads_back_array(text: Seq<u8>, r: Result<Vec<u8>, String>) -> bool {
    forall|x: Seq<u8>| #[trigger] byte_array_json(x) == text ==> (r matches Ok(v) && v@ == x)
}

/// Reads a `Vec<u8>` from JSON text with `serde_json::from_slice`; on
/// refusal the error's debug text is returned. Both are named by
/// `json_byte_array_parse`. What is stated beyond the name is that the
/// compact array serde_json writes for a byte string is read back as that
/// byte string.
#[verifier::external_body]
pub(crate) fn parse_byte_array_json(text: &[u8]) -> (r: Result<Vec<u8>, String>)
    ensures
        r is Ok <==> json_byte_array_parse(text@) is Ok,
        r matches Ok(v) ==> (json_byte_array_parse(text@) matches Ok(x) && x == v@),
        r matches Err(e) ==> (json_byte_array_parse(text@) matches Err(d) && d == e@),
        reads_back_array(text@, r),
{
    serde_json::from_slice::<Vec<u8>>(text).map_err(|e| format!("{:?}", e))
}

/// Writes the stored record that holds `data`.
pub fn encode_record(data: &[u8]) -> (r: Vec<u8>)
    ensures
        r@ == record_json(data@),
{
    let mut out: Vec<u8> = Vec::new();
    out.push(123);
    out.push(34);
    out.push(100);
    out.push(97);
    out.push(116);
    out.push(97);
    out.push(34);
    out.push(58);
    assert(out@ =~= record_open());
    push_byte_array_json(&mut out, data);
    out.push(125);
    assert(out@ =~= record_json(data@));
    out
}

/// Whether every byte of `b` is an ASCII character.
pub open spec fn is_ascii_bytes(b: Seq<u8>) -> bool {
    forall|i: int| 0 <= i < b.len() ==> #[trigger] b[i] < 128
}

/// A text of ASCII characters is valid UTF-8.
pub proof fn lemma_ascii_valid_utf8(b: Seq<u8>)
    requires
        is_ascii_bytes(b),
    ensures
        valid_utf8(b),
    decreases b.len(),
{
    if b.len() > 0 {
        let rest = b.subrange(1, b.len() as int);
        assert(is_ascii_bytes(rest)) by {
            assert forall|i: int| 0 <= i < rest.len() implies #[trigger] rest[i] < 128 by {
                assert(rest[i] == b[i + 1]);
            }
        }
        lemma_ascii_valid_utf8(rest);
        assert(b[0] < 128);
        assert(vstd::utf8::pop_first_scalar(b) =~= rest);
    }
}

proof fn lemma_decimal_ascii(n: nat)
    ensures
        is_ascii_bytes(decimal_json(n)),
    decreases n,
{
    if n >= 10 {
        lemma_decimal_ascii(n / 10);
    }
}

proof fn lemma_joined_ascii(s: Seq<u8>)
    ensures
        is_ascii_bytes(joined_decimals(s)),
    decreases s.len(),
{
    if s.len() == 1 {
        lemma_decimal_ascii(s[0] as nat);
    } else if s.len() > 1 {
        lemma_joined_ascii(s.drop_last());
        lemma_decimal_ascii(s.last() as nat);
        let a = joined_decimals(s.drop_last());
        let d = decimal_json(s.last() as nat);
        assert forall|i: int| 0 <= i < joined_decimals(s).len() implies #[trigger] joined_decimals(s)[i] < 128 by {
            if i < a.len() {
                assert(joined_decimals(s)[i] == a[i]);
            } else if i > a.len() {
                assert(joined_decimals(s)[i] == d[i - a.len() - 1]);
            }
        }
    }
}

/// The JSON array written for a byte string is valid UTF-8.
pub proof fn lemma_byte_array_json_valid_utf8(x: Seq<u8>)
    ensures
        valid_utf8(byte_array_json(x)),
{
    lemma_joined_ascii(x);
    let j = joined_decimals(x);
    assert forall|i: int| 0 <= i < byte_array_json(x).len() implies #[trigger] byte_array_json(x)[i] < 128 by {
        if 0 < i <= j.len() {
            assert(byte_array_json(x)[i] == j[i - 1]);
        }
    }
    lemma_ascii_valid_utf8(byte_array_json(x));
}

/// The decimal digits of a number are digits, at least one, and at least two
/// for a number from ten on.
proof fn lemma_decimal_digits(n: nat)
    ensures
        decimal_json(n).len() >= 1,
        n >= 10 ==> decimal_json(n).len() >= 2,
        forall|i: int| 0 <= i < decimal_json(n).len() ==> 48 <= #[trigger] decimal_json(n)[i] <= 57,
    decreases n,
{
    if n >= 10 {
        lemma_decimal_digits(n / 10);
        let d = decimal_json(n / 10);
        assert forall|i: int| 0 <= i < decimal_json(n).len() implies 48 <= #[trigger] decimal_json(n)[i] <= 57 by {
            if i < d.len() {
                assert(decimal_json(n)[i] == d[i]);
            }
        }
    }
}

/// Different numbers have different decimals.
proof fn lemma_decimal_injective(a: nat, b: nat)
    requires
        decimal_json(a) == decimal_json(b),
    ensures
        a == b,
    decreases a,
{
    lemma_decimal_digits(a);
    lemma_decimal_digits(b);
    if a >= 10 && b >= 10 {
        let da = decimal_json(a);
        assert(da.last() == (48 + a % 10) as u8);
        assert(decimal_json(b).last() == (48 + b % 10) as u8);
        assert(da.drop_last() =~= decimal_json(a / 10));
        assert(decimal_json(b).drop_last() =~= decimal_json(b / 10));
        lemma_decimal_injective(a / 10, b / 10);
        assert(((48 + a % 10) as u8) == ((48 + b % 10) as u8));
        assert(a % 10 == b % 10);
        assert(a / 10 == b / 10);
        assert(a == 10 * (a / 10) + a % 10) by (nonlinear_arith);
        assert(b == 10 * (b / 10) + b % 10) by (nonlinear_arith);
    } else if a < 10 && b < 10 {
        assert(decimal_json(a)[0] == decimal_json(b)[0]);
        assert(decimal_json(a)[0] == (48 + a) as u8);
        assert(decimal_json(b)[0] == (48 + b) as u8);
        assert(a == b);
    } else {
        assert(decimal_json(a).len() == decimal_json(b).len());
        assert(false);
    }
}

/// Whether `s` holds a comma.
pub open spec fn has_comma(s: Seq<u8>) -> bool {
    exists|i: int| 0 <= i < s.len() && s[i] == 44u8
}

/// The decimals of no byte, one byte, or more bytes: empty, one number with
/// no comma, or a comma right after the decimals of all but the last byte.
proof fn lemma_joined_shape(s: Seq<u8>)
    ensures
        s.len() == 0 ==> joined_decimals(s).len() == 0,
        s.len() == 1 ==> joined_decimals(s) == decimal_json(s[0] as nat) && !has_comma(joined_decimals(s)),
        s.len() >= 1 ==> joined_decimals(s).len() >= 1,
        s.len() >= 2 ==> joined_decimals(s) == joined_decimals(s.drop_last()) + seq![44u8]
            + decimal_json(s.last() as nat),
        s.len() >= 2 ==> joined_decimals(s)[joined_decimals(s.drop_last()).len() as int] == 44u8,
{
    if s.len() >= 1 {
        lemma_decimal_digits(s.last() as nat);
        lemma_decimal_digits(s[0] as nat);
    }
    if s.len() == 1 {
        let d = decimal_json(s[0] as nat);
        if has_comma(d) {
            let i = choose|i: int| 0 <= i < d.len() && d[i] == 44u8;
            assert(48 <= d[i]);
        }
    }
}

/// Different byte strings have different comma-separated decimals.
proof fn lemma_joined_injective(x: Seq<u8>, y: Seq<u8>)
    requires
        joined_decimals(x) == joined_decimals(y),
    ensures
        x == y,
    decreases x.len(),
{
    lemma_joined_shape(x);
    lemma_joined_shape(y);
    let t = joined_decimals(x);
    if x.len() == 0 || y.len() == 0 {
        assert(x.len() == 0 && y.len() == 0);
        assert(x =~= y);
    } else if x.len() == 1 && y.len() == 1 {
        lemma_decimal_injective(x[0] as nat, y[0] as nat);
        assert(x =~= y);
    } else if x.len() == 1 {
        assert(t[joined_decimals(y.drop_last()).len() as int] == 44u8);
        assert(has_comma(t));
    } else if y.len() == 1 {
        assert(t[joined_decimals(x.drop_last()).len() as int] == 44u8);
        assert(has_comma(t));
    } else {
        let da = decimal_json(x.last() as nat);
        let db = decimal_json(y.last() as nat);
        let ja = joined_decimals(x.drop_last());
        let jb = joined_decimals(y.drop_last());
        lemma_decimal_digits(x.last() as nat);
        lemma_decimal_digits(y.last() as nat);
        assert(t.len() == ja.len() + 1 + da.len());
        assert(t.len() == jb.len() + 1 + db.len());
        if da.len() < db.len() {
            let p = ja.len() as int;
            assert(t[p] == 44u8);
            assert(t[p] == db[p - jb.len() - 1]);
            assert(48 <= db[p - jb.len() - 1]);
        } else if db.len() < da.len() {
            let p = jb.len() as int;
            assert(t[p] == 44u8);
            assert(t[p] == da[p - ja.len() - 1]);
            assert(48 <= da[p - ja.len() - 1]);
        } else {
            assert(da =~= t.skip(ja.len() as int + 1));
            assert(db =~= t.skip(jb.len() as int + 1));
            lemma_decimal_injective(x.last() as nat, y.last() as nat);
            assert(ja =~= t.take(ja.len() as int));
            assert(jb =~= t.take(jb.len() as int));
            lemma_joined_injective(x.drop_last(), y.drop_last());
            assert(x =~= x.drop_last().push(x.last()));
            assert(y =~= y.drop_last().push(y.last()));
        }
    }
}

/// The JSON array written for a byte string tells it apart from every other:
/// no two byte strings, of any length, are written alike.
pub proof fn lemma_byte_array_json_injective(x: Seq<u8>, y: Seq<u8>)
    requires
        byte_array_json(x) == byte_array_json(y),
    ensures
        x == y,
{
    let t = byte_array_json(x);
    assert(joined_decimals(x) =~= t.subrange(1, t.len() - 1));
    assert(joined_decimals(y) =~= t.subrange(1, t.len() - 1));
    lemma_joined_injective(x, y);
}

/// The record written for a byte string tells it apart from every other:
/// the record keeps all of the data it is written for.
pub proof fn lemma_record_json_injective(x: Seq<u8>, y: Seq<u8>)
    requires
        record_json(x) == record_json(y),
    ensures
        x == y,
{
    let t = record_json(x);
    assert(byte_array_json(x) =~= t.subrange(8, t.len() - 1));
    assert(byte_array_json(y) =~= t.subrange(8, t.len() - 1));
    lemma_byte_array_json_injective(x, y);
}

} // verus!
