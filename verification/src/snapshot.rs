//! The persisted snapshot format: one record per open binding, each holding
//! the conversation id and the thread's creating-message id, laid out as a
//! JSON array of flat objects. The encoder and the strict decoder are both
//! verified, and decoding an encoded snapshot is proved to give back exactly
//! the original records. File reading and writing happen outside the library;
//! it only frames and checks the text.

use crate::decimal::dec_int;
use crate::decimal::digits_len;
use crate::decimal::is_digit;
use crate::decimal::i64_to_dec;
use crate::decimal::lemma_digits_len_nonneg;
use crate::decimal::lemma_dec_digits_props;
use crate::decimal::lemma_parse_dec_int;
use crate::decimal::lemma_pow10_19;
use crate::decimal::parse_i64_at;
use crate::decimal::parse_i64_spec;
use crate::state::sb;
use crate::state::SavedBinding;
use vstd::prelude::*;
use vstd::string::StringExecFns;
use vstd::string::StrSliceExecFns;

verus! {

/// The text opening a record, up to the conversation id.
pub open spec fn key_conv() -> Seq<char> {
    seq!['{', '"', 'c', 'h', 'a', 't', '_', 'i', 'd', '"', ':']
}

/// The text between the conversation id and the thread id.
pub open spec fn key_thread() -> Seq<char> {
    seq![',', '"', 't', 'o', 'p', 'i', 'c', '_', 'm', 's', 'g', '_', 'i', 'd', '"', ':']
}

/// The text of one record.
pub open spec fn enc_rec(b: SavedBinding) -> Seq<char> {
    key_conv() + dec_int(b.chat_id as int) + key_thread() + dec_int(b.topic_msg_id as int)
        + seq!['}']
}

/// The text of every record after the first, each preceded by a comma.
pub open spec fn enc_tail(s: Seq<SavedBinding>) -> Seq<char>
    decreases s.len(),
{
    if s.len() == 0 {
        Seq::empty()
    } else {
        seq![','] + enc_rec(s[0]) + enc_tail(s.drop_first())
    }
}

/// The whole snapshot text.
pub open spec fn encode_spec(s: Seq<SavedBinding>) -> Seq<char> {
    if s.len() == 0 {
        seq!['[', ']']
    } else {
        seq!['['] + enc_rec(s[0]) + enc_tail(s.drop_first()) + seq![']']
    }
}

/// `pat` occurs in `s` at position `i`.
pub open spec fn expect(s: Seq<char>, i: int, pat: Seq<char>) -> bool {
    0 <= i && i + pat.len() <= s.len() && s.subrange(i, i + pat.len() as int) == pat
}

/// Parse one record at position `i`: its two keys, two numbers in range, and
/// the closing brace.
pub open spec fn parse_rec_at(s: Seq<char>, i: int) -> Option<(SavedBinding, int)> {
    if !expect(s, i, key_conv()) {
        None
    } else {
        match parse_i64_spec(s, i + 11) {
            None => None,
            Some((c, j)) => if !expect(s, j, key_thread()) {
                None
            } else {
                match parse_i64_spec(s, j + 16) {
                    None => None,
                    Some((t, j2)) => if !(-2147483648 <= t <= 2147483647) {
                        None
                    } else if !(j2 < s.len() && s[j2] == '}') {
                        None
                    } else {
                        Some((sb(c as i64, t as i32), j2 + 1))
                    },
                }
            },
        }
    }
}

/// Parse the records that follow position `i`, each introduced by a comma,
/// stopping at the first position holding anything else.
pub open spec fn parse_records_from(s: Seq<char>, i: int) -> Option<(Seq<SavedBinding>, int)>
    decreases s.len() - i,
{
    if 0 <= i && i < s.len() && s[i] == ',' {
        match parse_rec_at(s, i + 1) {
            None => None,
            Some((b, j)) => if !(i < j && j <= s.len()) {
                None
            } else {
                match parse_records_from(s, j) {
                    None => None,
                    Some((rest, j2)) => Some((seq![b] + rest, j2)),
                }
            },
        }
    } else {
        Some((Seq::empty(), i))
    }
}

/// Decode a whole snapshot text: the bracketed list and nothing after it.
pub open spec fn decode_spec(s: Seq<char>) -> Option<Seq<SavedBinding>> {
    if s.len() < 2 || s[0] != '[' {
        None
    } else if s.len() == 2 && s[1] == ']' {
        Some(Seq::empty())
    } else {
        match parse_rec_at(s, 1) {
            None => None,
            Some((b, j)) => match parse_records_from(s, j) {
                None => None,
                Some((rest, j2)) => if j2 + 1 == s.len() && j2 < s.len() && s[j2] == ']' {
                    Some(seq![b] + rest)
                } else {
                    None
                },
            },
        }
    }
}

/// A successful number parse lands strictly ahead, inside the text.
proof fn lemma_parse_i64_advances(s: Seq<char>, i: int)
    requires
        parse_i64_spec(s, i) is Some,
    ensures
        i < (parse_i64_spec(s, i)->0).1 <= s.len(),
{
    lemma_digits_len_le_rem(s);
    if 0 <= i && i < s.len() && s[i] == '-' {
        lemma_digits_len_nonneg(s, i + 1);
        assert(digits_len(s, i + 1) >= 1);
    } else {
        lemma_digits_len_nonneg(s, i);
        assert(digits_len(s, i) >= 1);
    }
}

/// A digit run never reaches past the end of the text.
proof fn lemma_digits_len_le_rem(s: Seq<char>)
    ensures
        forall|i: int| #![trigger digits_len(s, i)] digits_len(s, i) <= s.len() - i || digits_len(s, i) == 0,
{
    assert forall|i: int| #![trigger digits_len(s, i)]
        digits_len(s, i) <= s.len() - i || digits_len(s, i) == 0 by {
        lemma_digits_len_le_rem_one(s, i);
    };
}

proof fn lemma_digits_len_le_rem_one(s: Seq<char>, i: int)
    ensures
        digits_len(s, i) <= s.len() - i || digits_len(s, i) == 0,
    decreases s.len() - i,
{
    if 0 <= i && i < s.len() && is_digit(s[i]) {
        lemma_digits_len_le_rem_one(s, i + 1);
        lemma_digits_len_nonneg(s, i + 1);
    }
}

/// A successful record parse lands strictly ahead, inside the text.
proof fn lemma_parse_rec_advances(s: Seq<char>, i: int)
    requires
        parse_rec_at(s, i) is Some,
    ensures
        i + 1 < (parse_rec_at(s, i)->0).1 <= s.len(),
{
    let (c, j) = parse_i64_spec(s, i + 11)->0;
    lemma_parse_i64_advances(s, i + 11);
    let (t, j2) = parse_i64_spec(s, j + 16)->0;
    lemma_parse_i64_advances(s, j + 16);
}

/// One record's text parses back to that record.
proof fn lemma_enc_rec_parse(s: Seq<char>, i: int, b: SavedBinding)
    requires
        0 <= i,
        i + enc_rec(b).len() <= s.len(),
        s.subrange(i, i + enc_rec(b).len() as int) == enc_rec(b),
    ensures
        parse_rec_at(s, i) == Some((b, i + enc_rec(b).len() as int)),
{
    let w = s.subrange(i, i + enc_rec(b).len() as int);
    let dc = dec_int(b.chat_id as int);
    let dt = dec_int(b.topic_msg_id as int);
    let e = enc_rec(b);
    lemma_pow10_19();
    assert(e.len() == 11 + dc.len() + 16 + dt.len() + 1);
    assert forall|m: int| 0 <= m < e.len() implies s[i + m] == e[m] by {
        assert(w[m] == e[m]);
    };
    assert(s.subrange(i, i + 11) =~= key_conv());
    assert(expect(s, i, key_conv()));
    let p1 = i + 11;
    assert forall|m: int| 0 <= m < dc.len() implies s[p1 + m] == dc[m] by {
        assert(e[11 + m] == dc[m]);
    };
    assert(s.subrange(p1, p1 + dc.len() as int) =~= dc);
    assert(s[p1 + dc.len()] == e[11 + dc.len() as int]);
    assert(e[11 + dc.len() as int] == key_thread()[0]);
    assert(s[p1 + dc.len()] == ',');
    assert(!is_digit(','));
    lemma_parse_dec_int(s, p1, b.chat_id as int);
    assert(parse_i64_spec(s, p1) == Some((b.chat_id as int, p1 + dc.len() as int)));
    let p2 = p1 + dc.len() as int;
    assert forall|m: int| 0 <= m < 16 implies s[p2 + m] == key_thread()[m] by {
        assert(e[11 + dc.len() + m] == key_thread()[m]);
    };
    assert(s.subrange(p2, p2 + 16) =~= key_thread());
    assert(expect(s, p2, key_thread()));
    let p3 = p2 + 16;
    assert forall|m: int| 0 <= m < dt.len() implies s[p3 + m] == dt[m] by {
        assert(e[11 + dc.len() + 16 + m] == dt[m]);
    };
    assert(s.subrange(p3, p3 + dt.len() as int) =~= dt);
    assert(s[p3 + dt.len()] == e[11 + dc.len() as int + 16 + dt.len() as int]);
    assert(s[p3 + dt.len()] == '}');
    assert(!is_digit('}'));
    lemma_parse_dec_int(s, p3, b.topic_msg_id as int);
    assert(parse_i64_spec(s, p3) == Some((b.topic_msg_id as int, p3 + dt.len() as int)));
    let p4 = p3 + dt.len() as int;
    assert(s[p4] == '}');
    assert(sb(b.chat_id as int as i64, b.topic_msg_id as int as i32) == b);
    assert(p4 + 1 == i + e.len());
}

/// The tail text after a record parses back to the remaining records, given
/// that what follows it is not another comma.
proof fn lemma_enc_tail_parse(s: Seq<char>, i: int, rest: Seq<SavedBinding>)
    requires
        0 <= i,
        i + enc_tail(rest).len() <= s.len(),
        s.subrange(i, i + enc_tail(rest).len() as int) == enc_tail(rest),
        i + enc_tail(rest).len() == s.len() || s[i + enc_tail(rest).len()] != ',',
    ensures
        parse_records_from(s, i) == Some((rest, i + enc_tail(rest).len() as int)),
    decreases rest.len(),
{
    if rest.len() == 0 {
        assert(enc_tail(rest).len() == 0);
        if 0 <= i && i < s.len() {
            assert(s[i] != ',');
        }
    } else {
        let b = rest[0];
        let e = enc_tail(rest);
        let er = enc_rec(b);
        let et = enc_tail(rest.drop_first());
        assert(e == seq![','] + er + et);
        assert forall|m: int| 0 <= m < e.len() implies s[i + m] == e[m] by {
            assert(s.subrange(i, i + e.len() as int)[m] == e[m]);
        };
        assert(s[i + 0] == e[0]);
        assert(e[0] == ',');
        assert(s[i] == ',');
        assert forall|m: int| 0 <= m < er.len() implies s[i + 1 + m] == er[m] by {
            assert(e[1 + m] == er[m]);
        };
        assert(s.subrange(i + 1, i + 1 + er.len() as int) =~= er);
        lemma_enc_rec_parse(s, i + 1, b);
        let j = i + 1 + er.len() as int;
        assert forall|m: int| 0 <= m < et.len() implies s[j + m] == et[m] by {
            assert(e[1 + er.len() + m] == et[m]);
        };
        assert(s.subrange(j, j + et.len() as int) =~= et);
        assert(j + et.len() == i + e.len());
        lemma_enc_tail_parse(s, j, rest.drop_first());
        lemma_parse_rec_advances(s, i + 1);
        assert(parse_records_from(s, i) == Some((seq![b] + rest.drop_first(), i + e.len() as int)));
        assert(seq![b] + rest.drop_first() =~= rest);
    }
}

/// Decoding an encoded snapshot yields exactly the records that were encoded:
/// a saved store comes back as it was.
pub proof fn lemma_snapshot_round_trip(records: Seq<SavedBinding>)
    ensures
        decode_spec(encode_spec(records)) == Some(records),
{
    let s = encode_spec(records);
    if records.len() == 0 {
        assert(s == seq!['[', ']']);
        assert(s[0] == '[' && s[1] == ']' && s.len() == 2);
        assert(decode_spec(s) == Some(Seq::<SavedBinding>::empty()));
        assert(records =~= Seq::<SavedBinding>::empty());
    } else {
        let b = records[0];
        let er = enc_rec(b);
        let et = enc_tail(records.drop_first());
        assert(s == seq!['['] + er + et + seq![']']);
        assert(s.len() == 1 + er.len() + et.len() + 1);
        lemma_enc_rec_len(b);
        assert(s[0] == '[');
        assert forall|m: int| 0 <= m < er.len() implies s[1 + m] == er[m] by {
            assert(s[1 + m] == (seq!['['] + er + et + seq![']'])[1 + m]);
        };
        assert(s.subrange(1, 1 + er.len() as int) =~= er);
        lemma_enc_rec_parse(s, 1, b);
        let j = 1 + er.len() as int;
        assert forall|m: int| 0 <= m < et.len() implies s[j + m] == et[m] by {
            assert(s[j + m] == (seq!['['] + er + et + seq![']'])[j + m]);
        };
        assert(s.subrange(j, j + et.len() as int) =~= et);
        assert(s[j + et.len()] == ']');
        lemma_enc_tail_parse(s, j, records.drop_first());
        let j2 = j + et.len() as int;
        assert(j2 + 1 == s.len() && s[j2] == ']');
        assert(decode_spec(s) == Some(seq![b] + records.drop_first()));
        assert(seq![b] + records.drop_first() =~= records);
    }
}

/// A record's text is never mistaken for the empty list's closing bracket.
proof fn lemma_enc_rec_len(b: SavedBinding)
    ensures
        enc_rec(b).len() >= 30,
{
    lemma_dec_digits_props((if b.chat_id < 0 {
        -(b.chat_id as int)
    } else {
        b.chat_id as int
    }) as nat);
    lemma_dec_digits_props((if b.topic_msg_id < 0 {
        -(b.topic_msg_id as int)
    } else {
        b.topic_msg_id as int
    }) as nat);
}

/// Append one record's text to the output.
fn append_record(out: &mut String, b: SavedBinding)
    ensures
        final(out)@ == old(out)@ + enc_rec(b),
{
    proof {
        reveal_strlit("{\"chat_id\":");
        reveal_strlit(",\"topic_msg_id\":");
        reveal_strlit("}");
        assert("{\"chat_id\":"@ =~= key_conv());
        assert(",\"topic_msg_id\":"@ =~= key_thread());
        assert("}"@ =~= seq!['}']);
    }
    out.append("{\"chat_id\":");
    let cd = i64_to_dec(b.chat_id);
    out.append(cd.as_str());
    out.append(",\"topic_msg_id\":");
    let td = i64_to_dec(b.topic_msg_id as i64);
    out.append(td.as_str());
    out.append("}");
    proof {
        assert(out@ =~= old(out)@ + enc_rec(b));
    }
}

/// Encode a snapshot of the binding store as its persisted text.
pub fn encode_snapshot(records: &Vec<SavedBinding>) -> (r: String)
    ensures
        r@ == encode_spec(records@),
{
    proof {
        reveal_strlit("[");
        reveal_strlit("]");
        reveal_strlit("[]");
        assert("["@ =~= seq!['[']);
        assert("]"@ =~= seq![']']);
        assert("[]"@ =~= seq!['[', ']']);
    }
    let n = records.len();
    if n == 0 {
        return String::from_str("[]");
    }
    let mut out = String::from_str("[");
    append_record(&mut out, records[0]);
    let mut i: usize = 1;
    while i < n
        invariant
            n == records@.len(),
            1 <= i <= n,
            out@ == seq!['['] + enc_rec(records@[0]) + enc_tail(records@.subrange(1, i as int)),
        decreases n - i,
    {
        proof {
            reveal_strlit(",");
            assert(","@ =~= seq![',']);
        }
        out.append(",");
        append_record(&mut out, records[i]);
        proof {
            lemma_enc_tail_snoc(records@.subrange(1, i as int), records@[i as int]);
            assert(records@.subrange(1, i + 1) =~= records@.subrange(1, i as int).push(
                records@[i as int],
            ));
        }
        i += 1;
    }
    out.append("]");
    proof {
        assert(records@.subrange(1, n as int) =~= records@.drop_first());
        assert(out@ =~= encode_spec(records@));
    }
    out
}

/// Appending a record to the tail extends its text at the end.
proof fn lemma_enc_tail_snoc(s: Seq<SavedBinding>, b: SavedBinding)
    ensures
        enc_tail(s.push(b)) == enc_tail(s) + seq![','] + enc_rec(b),
    decreases s.len(),
{
    if s.len() == 0 {
        assert(s.push(b)[0] == b);
        assert(s.push(b).drop_first() =~= Seq::<SavedBinding>::empty());
        assert(enc_tail(Seq::<SavedBinding>::empty()) == Seq::<char>::empty());
        assert(enc_tail(s) == Seq::<char>::empty());
        assert(enc_tail(s.push(b)) == seq![','] + enc_rec(b) + enc_tail(s.push(b).drop_first()));
        assert(enc_tail(s.push(b)) =~= enc_tail(s) + seq![','] + enc_rec(b));
    } else {
        assert(s.push(b)[0] == s[0]);
        assert(s.push(b).drop_first() =~= s.drop_first().push(b));
        lemma_enc_tail_snoc(s.drop_first(), b);
        assert(enc_tail(s.push(b)) == seq![','] + enc_rec(s[0]) + enc_tail(s.drop_first().push(b)));
        assert(enc_tail(s.drop_first().push(b)) == enc_tail(s.drop_first()) + seq![','] + enc_rec(
            b,
        ));
        assert((seq![','] + enc_rec(s[0])) + (enc_tail(s.drop_first()) + seq![','] + enc_rec(b))
            =~= seq![','] + enc_rec(s[0]) + enc_tail(s.drop_first()) + seq![','] + enc_rec(b));
        assert(enc_tail(s) == seq![','] + enc_rec(s[0]) + enc_tail(s.drop_first()));
        assert(enc_tail(s.push(b)) =~= enc_tail(s) + seq![','] + enc_rec(b));
    }
}

/// Compare the text at position `i` with `pat`, character by character.
fn expect_at(s: &str, i: usize, len: usize, pat: &str, plen: usize) -> (b: bool)
    requires
        len == s@.len(),
        i <= len,
        plen == pat@.len(),
    ensures
        b == expect(s@, i as int, pat@),
{
    if plen > len - i {
        return false;
    }
    let mut k: usize = 0;
    while k < plen
        invariant
            len == s@.len(),
            plen == pat@.len(),
            i + plen <= len,
            k <= plen,
            forall|m: int| 0 <= m < k ==> s@[i + m] == pat@[m],
        decreases plen - k,
    {
        let a = s.get_char(i + k);
        let c = pat.get_char(k);
        if a != c {
            proof {
                if expect(s@, i as int, pat@) {
                    assert(s@.subrange(i as int, i + plen as int)[k as int] == pat@[k as int]);
                }
            }
            return false;
        }
        k += 1;
    }
    proof {
        assert(s@.subrange(i as int, i + plen as int) =~= pat@);
    }
    true
}

/// Parse one record of the snapshot text at character position `i`.
fn parse_record(s: &str, i: usize, len: usize) -> (r: Option<(SavedBinding, usize)>)
    requires
        len == s@.len(),
        i <= len,
    ensures
        match r {
            Some(p) => parse_rec_at(s@, i as int) == Some((p.0, p.1 as int)) && i < p.1 <= len,
            None => parse_rec_at(s@, i as int) is None,
        },
{
    proof {
        reveal_strlit("{\"chat_id\":");
        reveal_strlit(",\"topic_msg_id\":");
        assert("{\"chat_id\":"@ =~= key_conv());
        assert(",\"topic_msg_id\":"@ =~= key_thread());
    }
    if !expect_at(s, i, len, "{\"chat_id\":", 11) {
        return None;
    }
    let p1 = i + 11;
    let parsed_c = parse_i64_at(s, p1, len);
    if parsed_c.is_none() {
        return None;
    }
    let (c, j) = parsed_c.unwrap();
    if !expect_at(s, j, len, ",\"topic_msg_id\":", 16) {
        return None;
    }
    let p3 = j + 16;
    let parsed_t = parse_i64_at(s, p3, len);
    if parsed_t.is_none() {
        return None;
    }
    let (t, j2) = parsed_t.unwrap();
    if t < -2147483648i64 || t > 2147483647i64 {
        return None;
    }
    if j2 >= len {
        return None;
    }
    let close = s.get_char(j2);
    if close != '}' {
        return None;
    }
    proof {
        lemma_parse_rec_advances(s@, i as int);
    }
    Some((SavedBinding { chat_id: c, topic_msg_id: t as i32 }, j2 + 1))
}

/// Decode a snapshot text, strictly: exactly the records the encoder writes,
/// in their written order, or nothing.
pub fn decode_snapshot(s: &str) -> (r: Option<Vec<SavedBinding>>)
    ensures
        match r {
            Some(v) => decode_spec(s@) == Some(v@),
            None => decode_spec(s@) is None,
        },
{
    let len = s.unicode_len();
    if len < 2 {
        return None;
    }
    if s.get_char(0) != '[' {
        return None;
    }
    if len == 2 {
        if s.get_char(1) == ']' {
            let empty: Vec<SavedBinding> = Vec::new();
            proof {
                assert(empty@ =~= Seq::<SavedBinding>::empty());
            }
            return Some(empty);
        } else {
            return None;
        }
    }
    let first = parse_record(s, 1, len);
    if first.is_none() {
        return None;
    }
    let (b0, j0) = first.unwrap();
    let mut acc: Vec<SavedBinding> = Vec::new();
    acc.push(b0);
    let mut j = j0;
    proof {
        assert(acc@ =~= seq![b0]);
    }
    loop
        invariant
            len == s@.len(),
            2 <= len,
            j <= len,
            acc@.len() >= 1,
            decode_spec(s@) == (match parse_records_from(s@, j as int) {
                None => None,
                Some((rest, j2)) => if j2 + 1 == s@.len() && j2 < s@.len() && s@[j2] == ']' {
                    Some(acc@ + rest)
                } else {
                    None
                },
            }),
        decreases len - j,
    {
        if j < len {
            let c = s.get_char(j);
            if c == ',' {
                let nxt = parse_record(s, j + 1, len);
                if nxt.is_none() {
                    return None;
                }
                let (b, j2) = nxt.unwrap();
                let ghost prev = acc@;
                acc.push(b);
                proof {
                    let (rest, e) = parse_records_from(s@, j2 as int)->0;
                    if parse_records_from(s@, j2 as int) is Some {
                        assert(seq![b] + rest =~= acc@.skip(prev.len() as int) + rest);
                        assert(prev + (seq![b] + rest) =~= acc@ + rest);
                    }
                    assert(parse_records_from(s@, j as int) == (
                    match parse_records_from(s@, j2 as int) {
                        None => None,
                        Some((rest2, e2)) => Some((seq![b] + rest2, e2)),
                    }));
                }
                j = j2;
                continue ;
            }
        }
        if j == len - 1 {
            let c = s.get_char(j);
            if c == ']' {
                return Some(acc);
            }
        }
        return None;
    }
}

} // verus!
