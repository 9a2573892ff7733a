//! Canonical JSON for the wire transaction body and the status journal.
//!
//! Serialization is verified against an exact character-level spec;
//! parsing accepts exactly the canonical form, checked by re-serializing
//! what was extracted and comparing with the input.

use vstd::prelude::*;
use vstd::string::*;

use crate::base64::{b64_char_of, b64_encode, b64_encode_chars};
use crate::error::ArweaveError;
use crate::status::{RawStatus, RawStatusView, Status, StatusCode, StatusView};
use crate::transaction::{Base64, Tag, Transaction};
use crate::utils::{
    chars_vec, dec_chars, digits_value, is_digit, leading_digits, lemma_digits_value_monotone,
    lemma_digits_value_nonneg, lemma_leading_digits_shape, push_str_chars, string_from_chars,
    u64_to_dec_chars,
};

verus! {

/// The lowercase hex digit of a value below sixteen.
pub open spec fn hex_digit(n: int) -> char {
    if n < 10 {
        ((48 + n) as u8) as char
    } else {
        ((87 + n) as u8) as char
    }
}

/// How one character appears inside a JSON string: quotes, backslashes
/// and control characters become a `\u00XX` escape, everything else
/// stands as itself.
pub open spec fn esc_char(c: char) -> Seq<char> {
    if c == '"' || c == '\\' || (c as int) < 32 {
        seq!['\\', 'u', '0', '0', hex_digit(c as int / 16), hex_digit(c as int % 16)]
    } else {
        seq![c]
    }
}

/// A string's characters, each escaped as JSON requires.
pub open spec fn esc(s: Seq<char>) -> Seq<char>
    decreases s.len(),
{
    if s.len() == 0 {
        Seq::empty()
    } else {
        esc_char(s[0]) + esc(s.drop_first())
    }
}

/// Escaping one more character appends its escape.
pub proof fn lemma_esc_push(s: Seq<char>, c: char)
    ensures
        esc(s.push(c)) == esc(s) + esc_char(c),
    decreases s.len(),
{
    if s.len() == 0 {
        assert(s.push(c)[0] == c);
        assert(s.push(c).drop_first() =~= Seq::<char>::empty());
        assert(esc(Seq::<char>::empty()) == Seq::<char>::empty());
        assert(esc(s.push(c)) =~= esc(s) + esc_char(c));
    } else {
        lemma_esc_push(s.drop_first(), c);
        assert(s.push(c).drop_first() =~= s.drop_first().push(c));
        assert(s.push(c)[0] == s[0]);
        assert(esc_char(s[0]) + (esc(s.drop_first()) + esc_char(c)) =~= (esc_char(s[0]) + esc(
            s.drop_first(),
        )) + esc_char(c));
    }
}

/// A JSON string literal: quoted, with every character escaped.
pub open spec fn quoted(s: Seq<char>) -> Seq<char> {
    seq!['"'] + esc(s) + seq!['"']
}

/// A JSON string literal of content that never needs escaping (base64url
/// text, decimal digits, status keywords).
pub open spec fn quoted_raw(s: Seq<char>) -> Seq<char> {
    seq!['"'] + s + seq!['"']
}

/// The keyword a status code serializes to.
pub open spec fn status_code_str(c: StatusCode) -> Seq<char> {
    match c {
        StatusCode::Submitted => "Submitted"@,
        StatusCode::Pending => "Pending"@,
        StatusCode::NotFound => "NotFound"@,
        StatusCode::Confirmed => "Confirmed"@,
        StatusCode::Failed => "Failed"@,
    }
}

/// The canonical JSON of a raw network status.
pub open spec fn raw_status_json(r: RawStatusView) -> Seq<char> {
    "{\"block_height\":"@ + dec_chars(r.block_height as nat) + ",\"block_indep_hash\":"@ + quoted(
        r.block_indep_hash,
    ) + ",\"number_of_confirmations\":"@ + dec_chars(r.number_of_confirmations as nat) + "}"@
}

/// The canonical JSON of a status record.
pub open spec fn status_json(v: StatusView) -> Seq<char> {
    "{\"id\":"@ + quoted_raw(b64_encode(v.id)) + ",\"status\":"@ + quoted_raw(
        status_code_str(v.status),
    ) + ",\"file_path\":"@ + (match v.file_path {
        Some(p) => quoted(p),
        None => "null"@,
    }) + ",\"created_at\":"@ + quoted(v.created_at) + ",\"last_modified\":"@ + quoted(
        v.last_modified,
    ) + ",\"reward\":"@ + dec_chars(v.reward as nat) + ",\"raw_status\":"@ + (match v.raw_status {
        Some(r) => raw_status_json(r),
        None => "null"@,
    }) + "}"@
}

/// Appends `s` with JSON escaping.
fn push_escaped(v: &mut Vec<char>, s: &str)
    ensures
        final(v)@ == old(v)@ + esc(s@),
{
    let len = s.unicode_len();
    let mut i: usize = 0;
    proof {
        assert(s@.take(0) =~= Seq::<char>::empty());
        assert(v@ + esc(Seq::<char>::empty()) =~= v@);
    }
    while i < len
        invariant
            i <= len,
            len == s@.len(),
            v@ == old(v)@ + esc(s@.take(i as int)),
        decreases len - i,
    {
        let c = s.get_char(i);
        let u = c as u32;
        if c == '"' || c == '\\' || u < 32 {
            v.push('\\');
            v.push('u');
            v.push('0');
            v.push('0');
            let hi = (u / 16) as u8;
            let lo = (u % 16) as u8;
            v.push(if hi < 10 { (48 + hi) as char } else { (87 + hi) as char });
            v.push(if lo < 10 { (48 + lo) as char } else { (87 + lo) as char });
        } else {
            v.push(c);
        }
        proof {
            lemma_esc_push(s@.take(i as int), s@[i as int]);
            assert(s@.take(i + 1) =~= s@.take(i as int).push(s@[i as int]));
            assert(v@ =~= old(v)@ + esc(s@.take(i + 1)));
        }
        i += 1;
    }
    proof {
        assert(s@.take(len as int) =~= s@);
    }
}

/// Appends a quoted, escaped JSON string.
fn push_quoted(v: &mut Vec<char>, s: &str)
    ensures
        final(v)@ == old(v)@ + quoted(s@),
{
    v.push('"');
    push_escaped(v, s);
    v.push('"');
    proof {
        assert(v@ =~= old(v)@ + quoted(s@));
    }
}

/// Appends a quoted base64url rendering of `b`.
fn push_quoted_b64(v: &mut Vec<char>, b: &Base64)
    ensures
        final(v)@ == old(v)@ + quoted_raw(b64_encode(b@)),
{
    v.push('"');
    let mut cs = b64_encode_chars(b.0.as_slice());
    v.append(&mut cs);
    v.push('"');
    proof {
        assert(v@ =~= old(v)@ + quoted_raw(b64_encode(b@)));
    }
}

/// Appends the decimal of `n`.
fn push_dec(v: &mut Vec<char>, n: u64)
    ensures
        final(v)@ == old(v)@ + dec_chars(n as nat),
{
    let mut cs = u64_to_dec_chars(n);
    v.append(&mut cs);
}

/// Appends the status keyword, quoted.
fn push_code(v: &mut Vec<char>, c: StatusCode)
    ensures
        final(v)@ == old(v)@ + quoted_raw(status_code_str(c)),
{
    v.push('"');
    match c {
        StatusCode::Submitted => push_str_chars(v, "Submitted"),
        StatusCode::Pending => push_str_chars(v, "Pending"),
        StatusCode::NotFound => push_str_chars(v, "NotFound"),
        StatusCode::Confirmed => push_str_chars(v, "Confirmed"),
        StatusCode::Failed => push_str_chars(v, "Failed"),
    }
    v.push('"');
    proof {
        assert(v@ =~= old(v)@ + quoted_raw(status_code_str(c)));
    }
}

/// Appends the canonical JSON of a raw status.
fn push_raw_status(v: &mut Vec<char>, r: &RawStatus)
    ensures
        final(v)@ == old(v)@ + raw_status_json(r@),
{
    push_str_chars(v, "{\"block_height\":");
    push_dec(v, r.block_height);
    push_str_chars(v, ",\"block_indep_hash\":");
    push_quoted(v, r.block_indep_hash.as_str());
    push_str_chars(v, ",\"number_of_confirmations\":");
    push_dec(v, r.number_of_confirmations);
    push_str_chars(v, "}");
    proof {
        assert(v@ =~= old(v)@ + raw_status_json(r@));
    }
}

/// Serializes a status record to its canonical JSON.
pub fn status_to_json(status: &Status) -> (r: String)
    ensures
        r@ == status_json(status@),
{
    let mut v: Vec<char> = Vec::new();
    push_str_chars(&mut v, "{\"id\":");
    push_quoted_b64(&mut v, &status.id);
    push_str_chars(&mut v, ",\"status\":");
    push_code(&mut v, status.status);
    push_str_chars(&mut v, ",\"file_path\":");
    match &status.file_path {
        Some(p) => push_quoted(&mut v, p.as_str()),
        None => push_str_chars(&mut v, "null"),
    }
    push_str_chars(&mut v, ",\"created_at\":");
    push_quoted(&mut v, status.created_at.as_str());
    push_str_chars(&mut v, ",\"last_modified\":");
    push_quoted(&mut v, status.last_modified.as_str());
    push_str_chars(&mut v, ",\"reward\":");
    push_dec(&mut v, status.reward);
    push_str_chars(&mut v, ",\"raw_status\":");
    match &status.raw_status {
        Some(rs) => push_raw_status(&mut v, rs),
        None => push_str_chars(&mut v, "null"),
    }
    push_str_chars(&mut v, "}");
    proof {
        assert(v@ =~= status_json(status@));
    }
    string_from_chars(&v)
}

/// The canonical JSON of one tag.
pub open spec fn tag_json(name: Seq<u8>, value: Seq<u8>) -> Seq<char> {
    "{\"name\":"@ + quoted_raw(b64_encode(name)) + ",\"value\":"@ + quoted_raw(b64_encode(value))
        + "}"@
}

/// The canonical JSON of the tag list from position `i` on, including the
/// closing bracket.
pub open spec fn tags_json_from(tags: Seq<Tag>, i: int) -> Seq<char>
    decreases tags.len() - i,
    when 0 <= i
{
    if i >= tags.len() {
        seq![']']
    } else if i == 0 {
        tag_json(tags[0].name@, tags[0].value@) + tags_json_from(tags, 1)
    } else {
        seq![','] + tag_json(tags[i].name@, tags[i].value@) + tags_json_from(tags, i + 1)
    }
}

/// The canonical JSON of a tag list.
pub open spec fn tags_json(tags: Seq<Tag>) -> Seq<char> {
    seq!['['] + tags_json_from(tags, 0)
}

/// The canonical JSON of the wire transaction body: every binary field
/// base64url, `quantity` and `data_size` as decimal strings, `format` and
/// `reward` as numbers. `chunks` and `proofs` stay local and are not
/// serialized.
pub open spec fn transaction_json(t: Transaction) -> Seq<char> {
    "{\"format\":"@ + dec_chars(t.format as nat) + ",\"id\":"@ + quoted_raw(b64_encode(t.id@))
        + ",\"last_tx\":"@ + quoted_raw(b64_encode(t.last_tx@)) + ",\"owner\":"@ + quoted_raw(
        b64_encode(t.owner@),
    ) + ",\"tags\":"@ + tags_json(t.tags@) + ",\"target\":"@ + quoted_raw(b64_encode(t.target@))
        + ",\"quantity\":"@ + quoted_raw(dec_chars(t.quantity as nat)) + ",\"data\":"@
        + quoted_raw(b64_encode(t.data@)) + ",\"data_size\":"@ + quoted_raw(
        dec_chars(t.data_size as nat),
    ) + ",\"data_root\":"@ + quoted_raw(b64_encode(t.data_root@)) + ",\"reward\":"@ + dec_chars(
        t.reward as nat,
    ) + ",\"signature\":"@ + quoted_raw(b64_encode(t.signature@)) + "}"@
}

/// Appends one tag's canonical JSON.
fn push_tag(v: &mut Vec<char>, t: &Tag)
    ensures
        final(v)@ == old(v)@ + tag_json(t.name@, t.value@),
{
    push_str_chars(v, "{\"name\":");
    push_quoted_b64(v, &t.name);
    push_str_chars(v, ",\"value\":");
    push_quoted_b64(v, &t.value);
    push_str_chars(v, "}");
    proof {
        assert(v@ =~= old(v)@ + tag_json(t.name@, t.value@));
    }
}

/// Appends the canonical JSON of the tag list.
fn push_tags(v: &mut Vec<char>, tags: &Vec<Tag>)
    ensures
        final(v)@ == old(v)@ + tags_json(tags@),
{
    v.push('[');
    let mut i: usize = 0;
    proof {
        assert(v@ + tags_json_from(tags@, 0) =~= old(v)@ + tags_json(tags@));
    }
    while i < tags.len()
        invariant
            i <= tags@.len(),
            v@ + tags_json_from(tags@, i as int) == old(v)@ + tags_json(tags@),
        decreases tags@.len() - i,
    {
        let ghost pre = v@;
        if i > 0 {
            v.push(',');
        }
        push_tag(v, &tags[i]);
        proof {
            if i == 0 {
                assert(tags_json_from(tags@, 0) == tag_json(tags@[0].name@, tags@[0].value@)
                    + tags_json_from(tags@, 1));
                assert(v@ =~= pre + tag_json(tags@[0].name@, tags@[0].value@));
            } else {
                assert(tags_json_from(tags@, i as int) == seq![','] + tag_json(
                    tags@[i as int].name@,
                    tags@[i as int].value@,
                ) + tags_json_from(tags@, i as int + 1));
                assert(v@ =~= pre + seq![','] + tag_json(
                    tags@[i as int].name@,
                    tags@[i as int].value@,
                ));
            }
            assert(v@ + tags_json_from(tags@, i as int + 1) =~= pre + tags_json_from(
                tags@,
                i as int,
            ));
        }
        i += 1;
    }
    v.push(']');
    proof {
        assert(tags_json_from(tags@, tags@.len() as int) =~= seq![']']);
        assert(v@ =~= old(v)@ + tags_json(tags@));
    }
}

/// Serializes the wire transaction body to its canonical JSON.
pub fn transaction_to_json(t: &Transaction) -> (r: String)
    ensures
        r@ == transaction_json(*t),
{
    let mut v: Vec<char> = Vec::new();
    push_str_chars(&mut v, "{\"format\":");
    push_dec(&mut v, t.format);
    push_str_chars(&mut v, ",\"id\":");
    push_quoted_b64(&mut v, &t.id);
    push_str_chars(&mut v, ",\"last_tx\":");
    push_quoted_b64(&mut v, &t.last_tx);
    push_str_chars(&mut v, ",\"owner\":");
    push_quoted_b64(&mut v, &t.owner);
    push_str_chars(&mut v, ",\"tags\":");
    push_tags(&mut v, &t.tags);
    push_str_chars(&mut v, ",\"target\":");
    push_quoted_b64(&mut v, &t.target);
    push_str_chars(&mut v, ",\"quantity\":");
    v.push('"');
    push_dec(&mut v, t.quantity);
    v.push('"');
    push_str_chars(&mut v, ",\"data\":");
    push_quoted_b64(&mut v, &t.data);
    push_str_chars(&mut v, ",\"data_size\":");
    v.push('"');
    push_dec(&mut v, t.data_size);
    v.push('"');
    push_str_chars(&mut v, ",\"data_root\":");
    push_quoted_b64(&mut v, &t.data_root);
    push_str_chars(&mut v, ",\"reward\":");
    push_dec(&mut v, t.reward);
    push_str_chars(&mut v, ",\"signature\":");
    push_quoted_b64(&mut v, &t.signature);
    push_str_chars(&mut v, "}");
    proof {
        assert(v@ =~= transaction_json(*t));
    }
    string_from_chars(&v)
}

} // verus!

verus! {

/// The value of a lowercase hex digit character, or -1.
pub open spec fn hex_val_of(c: char) -> int {
    if 48 <= c as int <= 57 {
        c as int - 48
    } else if 97 <= c as int <= 102 {
        c as int - 87
    } else {
        -1
    }
}

/// The value of a lowercase hex digit character.
fn hex_val(c: char) -> (r: Option<u8>)
    ensures
        match r {
            Some(v) => v < 16 && hex_val_of(c) == v as int,
            None => hex_val_of(c) < 0,
        },
{
    let u = c as u32;
    if 48 <= u && u <= 57 {
        Some((u - 48) as u8)
    } else if 97 <= u && u <= 102 {
        Some((u - 97 + 10) as u8)
    } else {
        None
    }
}

/// Whether the literal stands at position `i` of `s`.
pub open spec fn lit_at(s: Seq<char>, i: int, lit: Seq<char>) -> bool {
    i + lit.len() <= s.len() && s.subrange(i, i + lit.len()) == lit
}

/// Consumes the literal `lit` at position `i`; succeeds exactly when the
/// literal is there.
fn eat_lit(cs: &Vec<char>, i: usize, lit: &str) -> (r: Option<usize>)
    requires
        i <= cs@.len(),
    ensures
        match r {
            Some(j) => i <= j <= cs@.len() && lit_at(cs@, i as int, lit@) && j as int == i
                + lit@.len(),
            None => !lit_at(cs@, i as int, lit@),
        },
{
    let n = lit.unicode_len();
    if cs.len() - i < n {
        return None;
    }
    let mut k: usize = 0;
    while k < n
        invariant
            k <= n,
            n == lit@.len(),
            i + n <= cs@.len(),
            cs@.len() <= usize::MAX,
            forall|m: int| 0 <= m < k ==> cs@[i + m] == lit@[m],
        decreases n - k,
    {
        if cs[i + k] != lit.get_char(k) {
            proof {
                if lit_at(cs@, i as int, lit@) {
                    assert(cs@.subrange(i as int, i + lit@.len())[k as int] == cs@[i + k]);
                    assert(false);
                }
            }
            return None;
        }
        k += 1;
    }
    proof {
        assert(cs@.subrange(i as int, i + lit@.len()) =~= lit@);
    }
    Some(i + n)
}

/// What scanning a JSON string body from `j` yields, with `acc` already
/// read: the content up to an unescaped quote and the position after it.
pub open spec fn scan_string_body(s: Seq<char>, j: int, acc: Seq<char>) -> Option<(Seq<char>, int)>
    decreases s.len() - j,
    when 0 <= j
{
    if j >= s.len() {
        None
    } else if s[j] == '"' {
        Some((acc, j + 1))
    } else if s[j] == '\\' {
        if j + 6 <= s.len() && s[j + 1] == 'u' && s[j + 2] == '0' && s[j + 3] == '0' && hex_val_of(
            s[j + 4],
        ) >= 0 && hex_val_of(s[j + 5]) >= 0 {
            scan_string_body(
                s,
                j + 6,
                acc.push(((hex_val_of(s[j + 4]) * 16 + hex_val_of(s[j + 5])) as u8) as char),
            )
        } else {
            None
        }
    } else {
        scan_string_body(s, j + 1, acc.push(s[j]))
    }
}

/// What scanning a quoted JSON string at `i` yields.
pub open spec fn scan_string(s: Seq<char>, i: int) -> Option<(Seq<char>, int)> {
    if 0 <= i < s.len() && s[i] == '"' {
        scan_string_body(s, i + 1, Seq::empty())
    } else {
        None
    }
}

/// Reads a quoted string starting at `i`, undoing `\u00XX` escapes;
/// behaves exactly as [`scan_string`].
fn parse_string_at(cs: &Vec<char>, i: usize) -> (r: Option<(String, usize)>)
    requires
        i <= cs@.len(),
    ensures
        r matches Some(p) ==> i < p.1 <= cs@.len(),
        match r {
            Some(p) => scan_string(cs@, i as int) == Some((p.0@, p.1 as int)),
            None => scan_string(cs@, i as int) is None,
        },
{
    if i >= cs.len() {
        return None;
    }
    if cs[i] != '"' {
        return None;
    }
    let mut out: Vec<char> = Vec::new();
    let mut j: usize = i + 1;
    while j < cs.len()
        invariant
            i < j <= cs@.len(),
            scan_string(cs@, i as int) == scan_string_body(cs@, j as int, out@),
        decreases cs@.len() - j,
    {
        let c = cs[j];
        if c == '"' {
            return Some((string_from_chars(&out), j + 1));
        }
        if c == '\\' {
            if cs.len() - j < 6 {
                return None;
            }
            if cs[j + 1] != 'u' || cs[j + 2] != '0' || cs[j + 3] != '0' {
                return None;
            }
            let hi = match hex_val(cs[j + 4]) {
                Some(v) => v,
                None => {
                    return None;
                },
            };
            let lo = match hex_val(cs[j + 5]) {
                Some(v) => v,
                None => {
                    return None;
                },
            };
            out.push((hi * 16 + lo) as char);
            j += 6;
        } else {
            out.push(c);
            j += 1;
        }
    }
    None
}

/// Whether `c` is an ASCII decimal digit.
fn char_is_digit(c: char) -> (r: bool)
    ensures
        r == is_digit(c),
{
    let u = c as u32;
    48 <= u && u <= 57
}

/// The value of a decimal digit character.
fn digit_val(c: char) -> (r: u8)
    requires
        is_digit(c),
    ensures
        r as int == c as int - 48,
        r < 10,
{
    (c as u32 - 48) as u8
}

/// Reads a decimal `u64` starting at `i`: exactly the leading digit
/// prefix, succeeding if and only if it is non-empty and its value fits.
fn parse_u64_at(cs: &Vec<char>, i: usize) -> (r: Option<(u64, usize)>)
    requires
        i <= cs@.len(),
    ensures
        match r {
            Some(p) => {
                &&& i < p.1 <= cs@.len()
                &&& leading_digits(cs@.skip(i as int)).len() == p.1 - i
                &&& p.0 as int == digits_value(leading_digits(cs@.skip(i as int)))
            },
            None => leading_digits(cs@.skip(i as int)).len() == 0 || digits_value(
                leading_digits(cs@.skip(i as int)),
            ) > u64::MAX,
        },
{
    let ghost tail = cs@.skip(i as int);
    let ghost lead = leading_digits(tail);
    proof {
        lemma_leading_digits_shape(tail);
        assert(lead.take(0) =~= Seq::<char>::empty());
    }
    let mut j: usize = i;
    let mut val: u64 = 0;
    let mut any = false;
    while j < cs.len()
        invariant
            i <= j <= cs@.len(),
            tail == cs@.skip(i as int),
            lead == leading_digits(tail),
            lead.len() <= tail.len(),
            lead == tail.take(lead.len() as int),
            lead.take(lead.len() as int) == lead,
            forall|k: int| 0 <= k < lead.len() ==> is_digit(#[trigger] tail[k]),
            lead.len() < tail.len() ==> !is_digit(tail[lead.len() as int]),
            j - i <= lead.len(),
            val as int == digits_value(lead.take(j - i)),
            any == (j > i),
        ensures
            i <= j <= cs@.len(),
            j - i == lead.len(),
            val as int == digits_value(lead),
            any == (j > i),
        decreases cs@.len() - j,
    {
        let c = cs[j];
        proof {
            assert(cs@[j as int] == tail[j - i]);
            assert(c == tail[j - i]);
        }
        if !char_is_digit(c) {
            proof {
                assert(!is_digit(tail[j - i]));
                assert(j - i == lead.len());
                assert(lead.take(j - i) == lead);
            }
            break;
        }
        proof {
            assert(is_digit(tail[j - i]));
            assert(j - i < lead.len());
            assert(lead[j - i] == tail[j - i]);
            assert(lead.take(j - i + 1).drop_last() =~= lead.take(j - i));
            assert(lead.take(j - i + 1).last() == tail[j - i]);
            assert(digits_value(lead.take(j - i + 1)) == digits_value(lead.take(j - i)) * 10 + (
            tail[j - i] as int - 48));
        }
        let d = digit_val(c);
        if val > (u64::MAX - d as u64) / 10 {
            proof {
                assert(val * 10 + d > u64::MAX) by {
                    assert(val >= (u64::MAX - d) / 10 + 1);
                    assert(((u64::MAX - d) / 10 + 1) * 10 > u64::MAX - d);
                }
                assert(forall|k: int| 0 <= k < lead.len() ==> is_digit(#[trigger] lead[k]));
                lemma_digits_value_monotone(lead, j - i + 1);
                assert(digits_value(lead) > u64::MAX);
            }
            return None;
        }
        proof {
            assert(val * 10 + d <= u64::MAX) by {
                assert(val <= (u64::MAX - d) / 10);
                assert(((u64::MAX - d) / 10) * 10 <= u64::MAX - d);
            }
        }
        val = val * 10 + d as u64;
        any = true;
        j += 1;
    }
    if !any {
        return None;
    }
    Some((val, j))
}

/// What reading a quoted base64url byte-string at `i` yields.
pub open spec fn scan_b64(s: Seq<char>, i: int) -> Option<(Seq<u8>, int)> {
    match scan_string(s, i) {
        Some(p) => match crate::base64::b64_decode_spec(p.0) {
            Some(b) => Some((b, p.1)),
            None => None,
        },
        None => None,
    }
}

/// What reading a quoted status keyword at `i` yields.
pub open spec fn scan_code(s: Seq<char>, i: int) -> Option<(StatusCode, int)> {
    match scan_string(s, i) {
        Some(p) => {
            if p.0 == "Submitted"@ {
                Some((StatusCode::Submitted, p.1))
            } else if p.0 == "Pending"@ {
                Some((StatusCode::Pending, p.1))
            } else if p.0 == "NotFound"@ {
                Some((StatusCode::NotFound, p.1))
            } else if p.0 == "Confirmed"@ {
                Some((StatusCode::Confirmed, p.1))
            } else if p.0 == "Failed"@ {
                Some((StatusCode::Failed, p.1))
            } else {
                None
            }
        },
        None => None,
    }
}

/// What reading a string-or-null at `i` yields.
pub open spec fn scan_opt_string(s: Seq<char>, i: int) -> Option<(Option<Seq<char>>, int)> {
    if i < s.len() && s[i] == 'n' {
        match eat_spec(s, i, "null"@) {
            Some(j) => Some((None, j)),
            None => None,
        }
    } else {
        match scan_string(s, i) {
            Some(p) => Some((Some(p.0), p.1)),
            None => None,
        }
    }
}

/// What reading a raw-status-or-null at `i` yields.
pub open spec fn scan_opt_raw(s: Seq<char>, i: int) -> Option<(Option<RawStatusView>, int)> {
    if i < s.len() && s[i] == 'n' {
        match eat_spec(s, i, "null"@) {
            Some(j) => Some((None, j)),
            None => None,
        }
    } else {
        match scan_raw_status(s, i) {
            Some(p) => Some((Some(p.0), p.1)),
            None => None,
        }
    }
}

/// What reading the second half of a status record yields, from
/// `created_at` on, given the fields already read.
pub open spec fn scan_status_tail(
    s: Seq<char>,
    i: int,
    id: Seq<u8>,
    status: StatusCode,
    file_path: Option<Seq<char>>,
) -> Option<StatusView> {
    match eat_spec(s, i, ",\"created_at\":"@) {
        Some(j) => match scan_string(s, j) {
            Some((created_at, j)) => match eat_spec(s, j, ",\"last_modified\":"@) {
                Some(j) => match scan_string(s, j) {
                    Some((last_modified, j)) => match eat_spec(s, j, ",\"reward\":"@) {
                        Some(j) => match scan_u64_spec(s, j) {
                            Some((reward, j)) => match eat_spec(s, j, ",\"raw_status\":"@) {
                                Some(j) => match scan_opt_raw(s, j) {
                                    Some((raw_status, j)) => match eat_spec(s, j, "}"@) {
                                        Some(j) => {
                                            if j == s.len() {
                                                Some(
                                                    StatusView {
                                                        id,
                                                        status,
                                                        file_path,
                                                        created_at,
                                                        last_modified,
                                                        reward: reward as u64,
                                                        raw_status,
                                                    },
                                                )
                                            } else {
                                                None
                                            }
                                        },
                                        None => None,
                                    },
                                    None => None,
                                },
                                None => None,
                            },
                            None => None,
                        },
                        None => None,
                    },
                    None => None,
                },
                None => None,
            },
            None => None,
        },
        None => None,
    }
}

/// What reading a whole status record yields: exactly the canonical
/// rendering of one record, covering the entire text.
pub open spec fn scan_status(s: Seq<char>) -> Option<StatusView> {
    match eat_spec(s, 0, "{\"id\":"@) {
        Some(j) => match scan_b64(s, j) {
            Some((id, j)) => match eat_spec(s, j, ",\"status\":"@) {
                Some(j) => match scan_code(s, j) {
                    Some((status, j)) => match eat_spec(s, j, ",\"file_path\":"@) {
                        Some(j) => match scan_opt_string(s, j) {
                            Some((file_path, j)) => scan_status_tail(s, j, id, status, file_path),
                            None => None,
                        },
                        None => None,
                    },
                    None => None,
                },
                None => None,
            },
            None => None,
        },
        None => None,
    }
}

/// Reads a quoted base64url byte-string starting at `i`; behaves exactly
/// as [`scan_b64`].
fn parse_b64_at(cs: &Vec<char>, i: usize) -> (r: Option<(Base64, usize)>)
    requires
        i <= cs@.len(),
    ensures
        r matches Some(p) ==> i < p.1 <= cs@.len(),
        match r {
            Some(p) => scan_b64(cs@, i as int) == Some((p.0@, p.1 as int)),
            None => scan_b64(cs@, i as int) is None,
        },
{
    let (text, j) = match parse_string_at(cs, i) {
        Some(p) => p,
        None => {
            return None;
        },
    };
    match Base64::from_str(text.as_str()) {
        Ok(b) => Some((b, j)),
        Err(_) => None,
    }
}

/// Compares a parsed string with a literal.
fn string_eq_lit(a: &String, lit: &str) -> (r: bool)
    ensures
        r == (a@ == lit@),
{
    crate::utils::str_eq(a.as_str(), lit)
}

/// Reads a quoted status keyword starting at `i`.
fn parse_code_at(cs: &Vec<char>, i: usize) -> (r: Option<(StatusCode, usize)>)
    requires
        i <= cs@.len(),
    ensures
        r matches Some(p) ==> i < p.1 <= cs@.len(),
        match r {
            Some(p) => scan_code(cs@, i as int) == Some((p.0, p.1 as int)),
            None => scan_code(cs@, i as int) is None,
        },
{
    let (text, j) = match parse_string_at(cs, i) {
        Some(p) => p,
        None => {
            return None;
        },
    };
    if string_eq_lit(&text, "Submitted") {
        Some((StatusCode::Submitted, j))
    } else if string_eq_lit(&text, "Pending") {
        Some((StatusCode::Pending, j))
    } else if string_eq_lit(&text, "NotFound") {
        Some((StatusCode::NotFound, j))
    } else if string_eq_lit(&text, "Confirmed") {
        Some((StatusCode::Confirmed, j))
    } else if string_eq_lit(&text, "Failed") {
        Some((StatusCode::Failed, j))
    } else {
        None
    }
}

/// What consuming a literal at `i` yields.
pub open spec fn eat_spec(s: Seq<char>, i: int, lit: Seq<char>) -> Option<int> {
    if lit_at(s, i, lit) {
        Some(i + lit.len())
    } else {
        None
    }
}

/// What reading a decimal number at `i` yields.
pub open spec fn scan_u64_spec(s: Seq<char>, i: int) -> Option<(int, int)> {
    let lead = leading_digits(s.skip(i));
    if lead.len() > 0 && digits_value(lead) <= u64::MAX {
        Some((digits_value(lead), i + lead.len()))
    } else {
        None
    }
}

/// What reading a whole raw-status object at `i` yields.
pub open spec fn scan_raw_status(s: Seq<char>, i: int) -> Option<(RawStatusView, int)> {
    match eat_spec(s, i, "{\"block_height\":"@) {
        Some(j) => match scan_u64_spec(s, j) {
            Some((bh, j)) => match eat_spec(s, j, ",\"block_indep_hash\":"@) {
                Some(j) => match scan_string(s, j) {
                    Some((bih, j)) => match eat_spec(s, j, ",\"number_of_confirmations\":"@) {
                        Some(j) => match scan_u64_spec(s, j) {
                            Some((nc, j)) => match eat_spec(s, j, "}"@) {
                                Some(j) => Some(
                                    (
                                        RawStatusView {
                                            block_height: bh as u64,
                                            block_indep_hash: bih,
                                            number_of_confirmations: nc as u64,
                                        },
                                        j,
                                    ),
                                ),
                                None => None,
                            },
                            None => None,
                        },
                        None => None,
                    },
                    None => None,
                },
                None => None,
            },
            None => None,
        },
        None => None,
    }
}

/// A segment at the head of the remainder can be split off.
pub proof fn lemma_split_at(s: Seq<char>, i: int, seg: Seq<char>, rest: Seq<char>)
    requires
        0 <= i <= s.len(),
        s.skip(i) == seg + rest,
    ensures
        lit_at(s, i, seg),
        s.skip(i + seg.len()) == rest,
        i + seg.len() <= s.len(),
    decreases 0int,
{
    let tail = s.skip(i);
    assert(tail.len() == s.len() - i);
    assert(tail.len() == seg.len() + rest.len());
    assert(forall|k: int| 0 <= k < tail.len() ==> #[trigger] tail[k] == s[i + k]);
    assert(s.subrange(i, i + seg.len() as int) =~= seg) by {
        assert(forall|k: int|
            0 <= k < seg.len() ==> #[trigger] s.subrange(i, i + seg.len() as int)[k] == tail[k]);
    }
    assert(s.skip(i + seg.len() as int) =~= rest) by {
        assert(forall|k: int|
            0 <= k < rest.len() ==> #[trigger] s.skip(i + seg.len() as int)[k] == tail[seg.len()
                + k]);
    }
}

/// Reads a raw-status object starting at `i`.
fn extract_raw_status_at(cs: &Vec<char>, i: usize) -> (r: Option<(RawStatus, usize)>)
    requires
        i <= cs@.len(),
    ensures
        r matches Some(p) ==> i <= p.1 <= cs@.len(),
        match r {
            Some(p) => scan_raw_status(cs@, i as int) == Some((p.0@, p.1 as int)),
            None => scan_raw_status(cs@, i as int) is None,
        },
{
    let j = match eat_lit(cs, i, "{\"block_height\":") {
        Some(j) => j,
        None => {
            return None;
        },
    };
    let (block_height, j) = match parse_u64_at(cs, j) {
        Some(p) => p,
        None => {
            return None;
        },
    };
    let j = match eat_lit(cs, j, ",\"block_indep_hash\":") {
        Some(j) => j,
        None => {
            return None;
        },
    };
    let (block_indep_hash, j) = match parse_string_at(cs, j) {
        Some(p) => p,
        None => {
            return None;
        },
    };
    let j = match eat_lit(cs, j, ",\"number_of_confirmations\":") {
        Some(j) => j,
        None => {
            return None;
        },
    };
    let (number_of_confirmations, j) = match parse_u64_at(cs, j) {
        Some(p) => p,
        None => {
            return None;
        },
    };
    let j = match eat_lit(cs, j, "}") {
        Some(j) => j,
        None => {
            return None;
        },
    };
    Some((RawStatus { block_height, block_indep_hash, number_of_confirmations }, j))
}

/// Attempts to read a whole status record; the caller re-serializes the
/// result to check that the input was canonical.
fn extract_status(cs: &Vec<char>) -> (r: Option<Status>)
    ensures
        match r {
            Some(st) => scan_status(cs@) == Some(st@),
            None => scan_status(cs@) is None,
        },
{
    let j = match eat_lit(cs, 0, "{\"id\":") {
        Some(j) => j,
        None => {
            return None;
        },
    };
    let (id, j) = match parse_b64_at(cs, j) {
        Some(p) => p,
        None => {
            return None;
        },
    };
    let j = match eat_lit(cs, j, ",\"status\":") {
        Some(j) => j,
        None => {
            return None;
        },
    };
    let (status, j) = match parse_code_at(cs, j) {
        Some(p) => p,
        None => {
            return None;
        },
    };
    let j = match eat_lit(cs, j, ",\"file_path\":") {
        Some(j) => j,
        None => {
            return None;
        },
    };
    let (file_path, j): (Option<String>, usize) = if j < cs.len() && cs[j] == 'n' {
        match eat_lit(cs, j, "null") {
            Some(j2) => (None, j2),
            None => {
                return None;
            },
        }
    } else {
        match parse_string_at(cs, j) {
            Some(p) => (Some(p.0), p.1),
            None => {
                return None;
            },
        }
    };
    let j = match eat_lit(cs, j, ",\"created_at\":") {
        Some(j) => j,
        None => {
            return None;
        },
    };
    let (created_at, j) = match parse_string_at(cs, j) {
        Some(p) => p,
        None => {
            return None;
        },
    };
    let j = match eat_lit(cs, j, ",\"last_modified\":") {
        Some(j) => j,
        None => {
            return None;
        },
    };
    let (last_modified, j) = match parse_string_at(cs, j) {
        Some(p) => p,
        None => {
            return None;
        },
    };
    let j = match eat_lit(cs, j, ",\"reward\":") {
        Some(j) => j,
        None => {
            return None;
        },
    };
    let (reward, j) = match parse_u64_at(cs, j) {
        Some(p) => p,
        None => {
            return None;
        },
    };
    let j = match eat_lit(cs, j, ",\"raw_status\":") {
        Some(j) => j,
        None => {
            return None;
        },
    };
    let (raw_status, j): (Option<RawStatus>, usize) = if j < cs.len() && cs[j] == 'n' {
        match eat_lit(cs, j, "null") {
            Some(j2) => (None, j2),
            None => {
                return None;
            },
        }
    } else {
        match extract_raw_status_at(cs, j) {
            Some(p) => (Some(p.0), p.1),
            None => {
                return None;
            },
        }
    };
    let j = match eat_lit(cs, j, "}") {
        Some(j) => j,
        None => {
            return None;
        },
    };
    if j != cs.len() {
        return None;
    }
    Some(Status { id, status, file_path, created_at, last_modified, reward, raw_status })
}

/// Parses a status record from journal text. Exactly the canonical form
/// of some record is accepted — it never fails on one, and what comes
/// back is that record, byte-equal through a round trip. Anything else
/// is a corrupt status.
pub fn parse_status_json(s: &str) -> (r: Result<Status, ArweaveError>)
    ensures
        match r {
            Ok(st) => s@ == status_json(st@),
            Err(e) => e == ArweaveError::StatusCorrupt && (forall|v: StatusView|
                status_wf(v) ==> s@ != status_json(v)),
        },
        forall|v: StatusView|
            (status_wf(v) && s@ == status_json(v)) ==> (r matches Ok(st) && st@ == v),
{
    let cs = chars_vec(s);
    match extract_status(&cs) {
        Some(st) => {
            let ser = status_to_json(&st);
            let orig = s.to_owned();
            proof {
                assert forall|v: StatusView| status_wf(v) && s@ == status_json(v) implies st@
                    == v by {
                    lemma_scan_status_canonical(cs@, v);
                }
            }
            if ser == orig {
                Ok(st)
            } else {
                Err(ArweaveError::StatusCorrupt)
            }
        },
        None => {
            proof {
                assert forall|v: StatusView|
                    status_wf(v) && s@ == status_json(v) implies false by {
                    lemma_scan_status_canonical(cs@, v);
                }
            }
            Err(ArweaveError::StatusCorrupt)
        },
    }
}

/// Parses a raw network status from confirmation-response text. Exactly
/// the canonical form of some record is accepted — it never fails on one,
/// and what comes back is that record; anything else is malformed.
pub fn parse_raw_status(s: &str) -> (r: Result<RawStatus, ArweaveError>)
    ensures
        match r {
            Ok(rs) => s@ == raw_status_json(rs@),
            Err(e) => e == ArweaveError::MalformedResponse && (forall|rv: RawStatusView|
                valid_chars(rv.block_indep_hash) ==> s@ != raw_status_json(rv)),
        },
        forall|rv: RawStatusView|
            (valid_chars(rv.block_indep_hash) && s@ == raw_status_json(rv)) ==> (
            r matches Ok(rs) && rs@ == rv),
{
    let cs = chars_vec(s);
    match extract_raw_status_at(&cs, 0) {
        Some((rs, j)) => {
            if j != cs.len() {
                proof {
                    assert forall|rv: RawStatusView|
                        valid_chars(rv.block_indep_hash) && s@ == raw_status_json(
                            rv,
                        ) implies false by {
                        assert(cs@.skip(0) =~= raw_status_json(rv) + Seq::<char>::empty());
                        lemma_scan_raw_canonical(cs@, 0, rv, Seq::empty());
                    }
                }
                return Err(ArweaveError::MalformedResponse);
            }
            let mut v: Vec<char> = Vec::new();
            push_raw_status(&mut v, &rs);
            let ser = string_from_chars(&v);
            let orig = s.to_owned();
            proof {
                assert forall|rv: RawStatusView|
                    valid_chars(rv.block_indep_hash) && s@ == raw_status_json(rv) implies rs@
                    == rv by {
                    assert(cs@.skip(0) =~= raw_status_json(rv) + Seq::<char>::empty());
                    lemma_scan_raw_canonical(cs@, 0, rv, Seq::empty());
                }
            }
            if ser == orig {
                Ok(rs)
            } else {
                Err(ArweaveError::MalformedResponse)
            }
        },
        None => {
            proof {
                assert forall|rv: RawStatusView|
                    valid_chars(rv.block_indep_hash) && s@ == raw_status_json(
                        rv,
                    ) implies false by {
                    assert(cs@.skip(0) =~= raw_status_json(rv) + Seq::<char>::empty());
                    lemma_scan_raw_canonical(cs@, 0, rv, Seq::empty());
                }
            }
            Err(ArweaveError::MalformedResponse)
        },
    }
}

} // verus!

verus! {

/// What reading a quoted decimal at `i` yields.
pub open spec fn scan_quoted_u64(s: Seq<char>, i: int) -> Option<(int, int)> {
    if 0 <= i < s.len() && s[i] == '"' {
        match scan_u64_spec(s, i + 1) {
            Some((v, j)) => {
                if j < s.len() && s[j] == '"' {
                    Some((v, j + 1))
                } else {
                    None
                }
            },
            None => None,
        }
    } else {
        None
    }
}

/// Reads a quoted decimal `u64` starting at `i`; behaves exactly as
/// [`scan_quoted_u64`].
fn parse_quoted_u64_at(cs: &Vec<char>, i: usize) -> (r: Option<(u64, usize)>)
    requires
        i <= cs@.len(),
    ensures
        r matches Some(p) ==> i < p.1 <= cs@.len(),
        match r {
            Some(p) => scan_quoted_u64(cs@, i as int) == Some((p.0 as int, p.1 as int)),
            None => scan_quoted_u64(cs@, i as int) is None,
        },
{
    if i >= cs.len() {
        return None;
    }
    if cs[i] != '"' {
        return None;
    }
    let (val, j) = match parse_u64_at(cs, i + 1) {
        Some(p) => p,
        None => {
            return None;
        },
    };
    if j >= cs.len() {
        return None;
    }
    if cs[j] != '"' {
        return None;
    }
    Some((val, j + 1))
}

/// What reading one tag object at `i` yields: its name and value bytes.
pub open spec fn scan_tag(s: Seq<char>, i: int) -> Option<((Seq<u8>, Seq<u8>), int)> {
    match eat_spec(s, i, "{\"name\":"@) {
        Some(j) => match scan_b64(s, j) {
            Some((name, j)) => match eat_spec(s, j, ",\"value\":"@) {
                Some(j) => match scan_b64(s, j) {
                    Some((value, j)) => match eat_spec(s, j, "}"@) {
                        Some(j) => Some(((name, value), j)),
                        None => None,
                    },
                    None => None,
                },
                None => None,
            },
            None => None,
        },
        None => None,
    }
}

/// Reads one tag object starting at `i`; behaves exactly as [`scan_tag`].
fn extract_tag_at(cs: &Vec<char>, i: usize) -> (r: Option<(Tag, usize)>)
    requires
        i <= cs@.len(),
    ensures
        r matches Some(p) ==> i < p.1 <= cs@.len(),
        match r {
            Some(p) => scan_tag(cs@, i as int) == Some(((p.0.name@, p.0.value@), p.1 as int)),
            None => scan_tag(cs@, i as int) is None,
        },
{
    let j = match eat_lit(cs, i, "{\"name\":") {
        Some(j) => j,
        None => {
            return None;
        },
    };
    let (name, j) = match parse_b64_at(cs, j) {
        Some(p) => p,
        None => {
            return None;
        },
    };
    let j = match eat_lit(cs, j, ",\"value\":") {
        Some(j) => j,
        None => {
            return None;
        },
    };
    let (value, j) = match parse_b64_at(cs, j) {
        Some(p) => p,
        None => {
            return None;
        },
    };
    let j = match eat_lit(cs, j, "}") {
        Some(j) => j,
        None => {
            return None;
        },
    };
    Some((Tag { name, value }, j))
}

/// The name and value bytes of each tag.
pub open spec fn tag_views(tags: Seq<Tag>) -> Seq<(Seq<u8>, Seq<u8>)> {
    tags.map_values(|t: Tag| (t.name@, t.value@))
}

/// What reading the non-empty remainder of a tag array at `i` yields.
pub open spec fn scan_tags_rest(s: Seq<char>, i: int) -> Option<(Seq<(Seq<u8>, Seq<u8>)>, int)>
    decreases s.len() - i,
    when 0 <= i <= s.len()
{
    match scan_tag(s, i) {
        Some((t, j)) => {
            if j <= i || j > s.len() {
                None
            } else if j < s.len() && s[j] == ']' {
                Some((seq![t], j + 1))
            } else if j < s.len() && s[j] == ',' {
                match scan_tags_rest(s, j + 1) {
                    Some((ts, j2)) => Some((seq![t] + ts, j2)),
                    None => None,
                }
            } else {
                None
            }
        },
        None => None,
    }
}

/// What reading a whole tag array at `i` yields.
pub open spec fn scan_tags(s: Seq<char>, i: int) -> Option<(Seq<(Seq<u8>, Seq<u8>)>, int)> {
    match eat_spec(s, i, "["@) {
        Some(j) => {
            if j < s.len() && s[j] == ']' {
                Some((Seq::empty(), j + 1))
            } else {
                scan_tags_rest(s, j)
            }
        },
        None => None,
    }
}

/// Reads the tag array starting at `i`; behaves exactly as [`scan_tags`].
fn extract_tags_at(cs: &Vec<char>, i: usize) -> (r: Option<(Vec<Tag>, usize)>)
    requires
        i <= cs@.len(),
    ensures
        r matches Some(p) ==> i <= p.1 <= cs@.len(),
        match r {
            Some(p) => scan_tags(cs@, i as int) == Some((tag_views(p.0@), p.1 as int)),
            None => scan_tags(cs@, i as int) is None,
        },
{
    let j = match eat_lit(cs, i, "[") {
        Some(j) => j,
        None => {
            return None;
        },
    };
    let mut tags: Vec<Tag> = Vec::new();
    if j < cs.len() && cs[j] == ']' {
        proof {
            assert(tag_views(tags@) =~= Seq::<(Seq<u8>, Seq<u8>)>::empty());
        }
        return Some((tags, j + 1));
    }
    let mut j: usize = j;
    proof {
        assert(scan_tags(cs@, i as int) == scan_tags_rest(cs@, j as int));
    }
    loop
        invariant
            i <= j <= cs@.len(),
            scan_tags(cs@, i as int) == (match scan_tags_rest(cs@, j as int) {
                Some((ts, j2)) => Some((tag_views(tags@) + ts, j2)),
                None => None::<(Seq<(Seq<u8>, Seq<u8>)>, int)>,
            }),
        decreases cs@.len() - j,
    {
        let (tag, j2) = match extract_tag_at(cs, j) {
            Some(p) => p,
            None => {
                return None;
            },
        };
        let ghost tv = (tag.name@, tag.value@);
        let ghost prev = tags@;
        tags.push(tag);
        proof {
            assert(tag_views(tags@) =~= tag_views(prev).push(tv));
        }
        if j2 >= cs.len() {
            return None;
        }
        if cs[j2] == ']' {
            proof {
                assert(scan_tags_rest(cs@, j as int) == Some((seq![tv], j2 as int + 1)));
                assert(tag_views(prev) + seq![tv] =~= tag_views(tags@));
            }
            return Some((tags, j2 + 1));
        }
        if cs[j2] != ',' {
            return None;
        }
        proof {
            assert(scan_tags_rest(cs@, j as int) == (match scan_tags_rest(cs@, j2 as int + 1) {
                Some((ts, jj)) => Some((seq![tv] + ts, jj)),
                None => None::<(Seq<(Seq<u8>, Seq<u8>)>, int)>,
            }));
            if let Some((ts2, jj)) = scan_tags_rest(cs@, j2 as int + 1) {
                assert(tag_views(prev) + (seq![tv] + ts2) =~= tag_views(tags@) + ts2);
            }
        }
        j = j2 + 1;
    }
}

/// The wire content of a transaction: every field the body carries.
pub open spec fn wire_view(t: Transaction) -> (
    u64,
    Seq<u8>,
    Seq<u8>,
    Seq<u8>,
    Seq<(Seq<u8>, Seq<u8>)>,
    Seq<u8>,
    u64,
    Seq<u8>,
    u64,
    Seq<u8>,
    u64,
    Seq<u8>,
) {
    (
        t.format,
        t.id@,
        t.last_tx@,
        t.owner@,
        tag_views(t.tags@),
        t.target@,
        t.quantity,
        t.data@,
        t.data_size,
        t.data_root@,
        t.reward,
        t.signature@,
    )
}

/// What reading the second half of a wire transaction yields, from
/// `target` on.
pub open spec fn scan_transaction_tail(s: Seq<char>, i: int) -> Option<(
    (Seq<u8>, int, Seq<u8>, int, Seq<u8>, int, Seq<u8>),
    int,
)> {
    match eat_spec(s, i, ",\"target\":"@) {
        Some(j) => match scan_b64(s, j) {
            Some((target, j)) => match eat_spec(s, j, ",\"quantity\":"@) {
                Some(j) => match scan_quoted_u64(s, j) {
                    Some((quantity, j)) => match eat_spec(s, j, ",\"data\":"@) {
                        Some(j) => match scan_b64(s, j) {
                            Some((data, j)) => match eat_spec(s, j, ",\"data_size\":"@) {
                                Some(j) => match scan_quoted_u64(s, j) {
                                    Some((data_size, j)) => match eat_spec(
                                        s,
                                        j,
                                        ",\"data_root\":"@,
                                    ) {
                                        Some(j) => match scan_b64(s, j) {
                                            Some((data_root, j)) => match eat_spec(
                                                s,
                                                j,
                                                ",\"reward\":"@,
                                            ) {
                                                Some(j) => match scan_u64_spec(s, j) {
                                                    Some((reward, j)) => match eat_spec(
                                                        s,
                                                        j,
                                                        ",\"signature\":"@,
                                                    ) {
                                                        Some(j) => match scan_b64(s, j) {
                                                            Some((signature, j)) => match
                                                                eat_spec(s, j, "}"@) {
                                                                Some(j) => {
                                                                    if j == s.len() {
                                                                        Some(
                                                                            (
                                                                                (
                                                                                    target,
                                                                                    quantity,
                                                                                    data,
                                                                                    data_size,
                                                                                    data_root,
                                                                                    reward,
                                                                                    signature,
                                                                                ),
                                                                                j,
                                                                            ),
                                                                        )
                                                                    } else {
                                                                        None
                                                                    }
                                                                },
                                                                None => None,
                                                            },
                                                            None => None,
                                                        },
                                                        None => None,
                                                    },
                                                    None => None,
                                                },
                                                None => None,
                                            },
                                            None => None,
                                        },
                                        None => None,
                                    },
                                    None => None,
                                },
                                None => None,
                            },
                            None => None,
                        },
                        None => None,
                    },
                    None => None,
                },
                None => None,
            },
            None => None,
        },
        None => None,
    }
}

/// What reading a whole wire transaction yields.
pub open spec fn scan_transaction(s: Seq<char>) -> Option<(
    (int, Seq<u8>, Seq<u8>, Seq<u8>, Seq<(Seq<u8>, Seq<u8>)>),
    (Seq<u8>, int, Seq<u8>, int, Seq<u8>, int, Seq<u8>),
)> {
    match eat_spec(s, 0, "{\"format\":"@) {
        Some(j) => match scan_u64_spec(s, j) {
            Some((format, j)) => match eat_spec(s, j, ",\"id\":"@) {
                Some(j) => match scan_b64(s, j) {
                    Some((id, j)) => match eat_spec(s, j, ",\"last_tx\":"@) {
                        Some(j) => match scan_b64(s, j) {
                            Some((last_tx, j)) => match eat_spec(s, j, ",\"owner\":"@) {
                                Some(j) => match scan_b64(s, j) {
                                    Some((owner, j)) => match eat_spec(s, j, ",\"tags\":"@) {
                                        Some(j) => match scan_tags(s, j) {
                                            Some((tags, j)) => match scan_transaction_tail(
                                                s,
                                                j,
                                            ) {
                                                Some((tail, _)) => Some(
                                                    ((format, id, last_tx, owner, tags), tail),
                                                ),
                                                None => None,
                                            },
                                            None => None,
                                        },
                                        None => None,
                                    },
                                    None => None,
                                },
                                None => None,
                            },
                            None => None,
                        },
                        None => None,
                    },
                    None => None,
                },
                None => None,
            },
            None => None,
        },
        None => None,
    }
}

/// Attempts to read a whole wire transaction; the caller re-serializes
/// the result to check that the input was canonical. The chunk material
/// is not on the wire, so it comes back empty.
fn extract_transaction(cs: &Vec<char>) -> (r: Option<Transaction>)
    ensures
        r matches Some(t) ==> t.chunks@.len() == 0 && t.proofs@.len() == 0,
        match r {
            Some(t) => scan_transaction(cs@) == Some(
                (
                    (t.format as int, t.id@, t.last_tx@, t.owner@, tag_views(t.tags@)),
                    (
                        t.target@,
                        t.quantity as int,
                        t.data@,
                        t.data_size as int,
                        t.data_root@,
                        t.reward as int,
                        t.signature@,
                    ),
                ),
            ),
            None => scan_transaction(cs@) is None,
        },
{
    let j = match eat_lit(cs, 0, "{\"format\":") {
        Some(j) => j,
        None => {
            return None;
        },
    };
    let (format, j) = match parse_u64_at(cs, j) {
        Some(p) => p,
        None => {
            return None;
        },
    };
    let j = match eat_lit(cs, j, ",\"id\":") {
        Some(j) => j,
        None => {
            return None;
        },
    };
    let (id, j) = match parse_b64_at(cs, j) {
        Some(p) => p,
        None => {
            return None;
        },
    };
    let j = match eat_lit(cs, j, ",\"last_tx\":") {
        Some(j) => j,
        None => {
            return None;
        },
    };
    let (last_tx, j) = match parse_b64_at(cs, j) {
        Some(p) => p,
        None => {
            return None;
        },
    };
    let j = match eat_lit(cs, j, ",\"owner\":") {
        Some(j) => j,
        None => {
            return None;
        },
    };
    let (owner, j) = match parse_b64_at(cs, j) {
        Some(p) => p,
        None => {
            return None;
        },
    };
    let j = match eat_lit(cs, j, ",\"tags\":") {
        Some(j) => j,
        None => {
            return None;
        },
    };
    let (tags, j) = match extract_tags_at(cs, j) {
        Some(p) => p,
        None => {
            return None;
        },
    };
    let j = match eat_lit(cs, j, ",\"target\":") {
        Some(j) => j,
        None => {
            return None;
        },
    };
    let (target, j) = match parse_b64_at(cs, j) {
        Some(p) => p,
        None => {
            return None;
        },
    };
    let j = match eat_lit(cs, j, ",\"quantity\":") {
        Some(j) => j,
        None => {
            return None;
        },
    };
    let (quantity, j) = match parse_quoted_u64_at(cs, j) {
        Some(p) => p,
        None => {
            return None;
        },
    };
    let j = match eat_lit(cs, j, ",\"data\":") {
        Some(j) => j,
        None => {
            return None;
        },
    };
    let (data, j) = match parse_b64_at(cs, j) {
        Some(p) => p,
        None => {
            return None;
        },
    };
    let j = match eat_lit(cs, j, ",\"data_size\":") {
        Some(j) => j,
        None => {
            return None;
        },
    };
    let (data_size, j) = match parse_quoted_u64_at(cs, j) {
        Some(p) => p,
        None => {
            return None;
        },
    };
    let j = match eat_lit(cs, j, ",\"data_root\":") {
        Some(j) => j,
        None => {
            return None;
        },
    };
    let (data_root, j) = match parse_b64_at(cs, j) {
        Some(p) => p,
        None => {
            return None;
        },
    };
    let j = match eat_lit(cs, j, ",\"reward\":") {
        Some(j) => j,
        None => {
            return None;
        },
    };
    let (reward, j) = match parse_u64_at(cs, j) {
        Some(p) => p,
        None => {
            return None;
        },
    };
    let j = match eat_lit(cs, j, ",\"signature\":") {
        Some(j) => j,
        None => {
            return None;
        },
    };
    let (signature, j) = match parse_b64_at(cs, j) {
        Some(p) => p,
        None => {
            return None;
        },
    };
    let j = match eat_lit(cs, j, "}") {
        Some(j) => j,
        None => {
            return None;
        },
    };
    if j != cs.len() {
        return None;
    }
    Some(
        Transaction {
            format,
            id,
            last_tx,
            owner,
            tags,
            target,
            quantity,
            data,
            data_size,
            data_root,
            reward,
            signature,
            chunks: Vec::new(),
            proofs: Vec::new(),
        },
    )
}

/// Whether two transactions carry the same wire content.
pub open spec fn same_wire(a: Transaction, b: Transaction) -> bool {
    wire_view(a) == wire_view(b)
}

/// A tag list's rendering depends only on its views.
proof fn lemma_tags_json_views(a: Seq<Tag>, b: Seq<Tag>, k: int)
    requires
        tag_views(a) == tag_views(b),
        0 <= k,
    ensures
        tags_json_from(a, k) == tags_json_from(b, k),
    decreases a.len() - k,
{
    assert(tag_views(a).len() == a.len());
    assert(tag_views(b).len() == b.len());
    assert(a.len() == b.len());
    if k < a.len() {
        assert(tag_views(a)[k] == tag_views(b)[k]);
        assert(a[k].name@ == b[k].name@ && a[k].value@ == b[k].value@);
        lemma_tags_json_views(a, b, k + 1);
    }
}

/// The wire rendering depends only on the wire content.
proof fn lemma_transaction_json_wire(a: Transaction, b: Transaction)
    requires
        same_wire(a, b),
    ensures
        transaction_json(a) == transaction_json(b),
{
    lemma_tags_json_views(a.tags@, b.tags@, 0);
    assert(tags_json(a.tags@) == tags_json(b.tags@));
}

/// Parses a wire transaction body. Exactly the canonical rendering of
/// some transaction is accepted — it never fails on one, and what comes
/// back carries that transaction's wire content, with empty chunk
/// material, re-serializing to the very input. Decimal-string fields are
/// normalized by the round trip through `u64`.
pub fn parse_transaction_json(s: &str) -> (r: Result<Transaction, ArweaveError>)
    ensures
        match r {
            Ok(t) => s@ == transaction_json(t) && t.chunks@.len() == 0 && t.proofs@.len() == 0,
            Err(e) => e == ArweaveError::MalformedResponse && (forall|t: Transaction|
                s@ != transaction_json(t)),
        },
        forall|t: Transaction|
            s@ == transaction_json(t) ==> (r matches Ok(tx) && same_wire(tx, t)),
{
    let cs = chars_vec(s);
    match extract_transaction(&cs) {
        Some(t) => {
            let ser = transaction_to_json(&t);
            let orig = s.to_owned();
            proof {
                assert forall|t0: Transaction| s@ == transaction_json(t0) implies same_wire(
                    t,
                    t0,
                ) by {
                    lemma_scan_transaction_canonical(cs@, t0);
                }
                assert forall|t0: Transaction| s@ == transaction_json(t0) implies ser@
                    == orig@ by {
                    lemma_scan_transaction_canonical(cs@, t0);
                    lemma_transaction_json_wire(t, t0);
                }
            }
            if ser == orig {
                Ok(t)
            } else {
                Err(ArweaveError::MalformedResponse)
            }
        },
        None => {
            proof {
                assert forall|t0: Transaction| s@ == transaction_json(t0) implies false by {
                    lemma_scan_transaction_canonical(cs@, t0);
                }
            }
            Err(ArweaveError::MalformedResponse)
        },
    }
}

} // verus!

verus! {

/// Characters that exist: unicode scalar values. A `Seq<char>` in a
/// contract may in principle hold values outside this set, so laws about
/// serialized text are stated for sequences of real characters.
pub open spec fn valid_chars(s: Seq<char>) -> bool {
    forall|k: int| 0 <= k < s.len() ==> 0 <= ((#[trigger] s[k]) as int) < 1114112
}

/// A hex digit reads back as its value.
proof fn lemma_hex_digit_val(x: int)
    requires
        0 <= x < 16,
    ensures
        hex_val_of(hex_digit(x)) == x,
{
}

/// Scanning a JSON string body over escaped content followed by the
/// closing quote yields exactly that content.
proof fn lemma_scan_body_canonical(s: Seq<char>, j: int, acc: Seq<char>, content: Seq<char>, rest: Seq<char>)
    requires
        0 <= j <= s.len(),
        valid_chars(content),
        s.skip(j) == esc(content) + seq!['"'] + rest,
    ensures
        scan_string_body(s, j, acc) == Some((acc + content, j + esc(content).len() + 1)),
    decreases content.len(),
{
    let tail = s.skip(j);
    if content.len() == 0 {
        assert(esc(content) == Seq::<char>::empty());
        assert(tail =~= seq!['"'] + rest);
        assert(tail.len() >= 1);
        assert(s[j] == tail[0]);
        assert(s[j] == '"');
        assert(acc + content =~= acc);
    } else {
        let c = content[0];
        let ctail = content.drop_first();
        assert(0 <= (c as int) < 1114112);
        assert(valid_chars(ctail)) by {
            assert(forall|k: int|
                0 <= k < ctail.len() ==> #[trigger] ctail[k] == content[k + 1]);
        }
        assert(esc(content) == esc_char(c) + esc(ctail));
        assert(forall|k: int| 0 <= k < tail.len() ==> #[trigger] tail[k] == s[j + k]);
        if c == '"' || c == '\\' || (c as int) < 32 {
            let hi = c as int / 16;
            let lo = c as int % 16;
            assert(esc_char(c) == seq!['\\', 'u', '0', '0', hex_digit(hi), hex_digit(lo)]);
            assert(esc_char(c).len() == 6);
            assert(esc(content).len() == 6 + esc(ctail).len());
            assert(tail.len() >= 7);
            let ec = esc_char(c);
            assert(ec[0] == '\\' && ec[1] == 'u' && ec[2] == '0' && ec[3] == '0' && ec[4]
                == hex_digit(hi) && ec[5] == hex_digit(lo));
            assert(tail[0] == esc(content)[0] && esc(content)[0] == ec[0]);
            assert(tail[1] == esc(content)[1] && esc(content)[1] == ec[1]);
            assert(tail[2] == esc(content)[2] && esc(content)[2] == ec[2]);
            assert(tail[3] == esc(content)[3] && esc(content)[3] == ec[3]);
            assert(tail[4] == esc(content)[4] && esc(content)[4] == ec[4]);
            assert(tail[5] == esc(content)[5] && esc(content)[5] == ec[5]);
            assert(s[j] == tail[0] && s[j + 1] == tail[1] && s[j + 2] == tail[2] && s[j + 3]
                == tail[3] && s[j + 4] == tail[4] && s[j + 5] == tail[5]);
            assert(s[j] == '\\' && s[j + 1] == 'u' && s[j + 2] == '0' && s[j + 3] == '0');
            assert(s[j + 4] == hex_digit(hi) && s[j + 5] == hex_digit(lo));
            assert(0 <= (c as int) < 256);
            assert(0 <= hi < 16 && 0 <= lo < 16);
            lemma_hex_digit_val(hi);
            lemma_hex_digit_val(lo);
            assert(hex_val_of(s[j + 4]) == hi && hex_val_of(s[j + 5]) == lo);
            assert((c as int) < 256);
            let rebuilt = ((hi * 16 + lo) as u8) as char;
            assert(rebuilt as int == c as int);
            assert(rebuilt == c);
            assert(s.skip(j + 6) =~= tail.skip(6));
            assert(tail.skip(6) =~= esc(ctail) + seq!['"'] + rest);
            lemma_scan_body_canonical(s, j + 6, acc.push(c), ctail, rest);
            assert(acc.push(c) + ctail =~= acc + content);
            assert(scan_string_body(s, j, acc) == scan_string_body(s, j + 6, acc.push(c)));
        } else {
            assert(esc_char(c) == seq![c]);
            assert(esc(content).len() == 1 + esc(ctail).len());
            assert(tail.len() >= 2);
            assert(tail[0] == esc(content)[0]);
            assert(esc(content)[0] == esc_char(c)[0]);
            assert(s[j] == c);
            assert(c != '"' && c != '\\');
            assert(s.skip(j + 1) =~= tail.skip(1));
            assert(tail.skip(1) =~= esc(ctail) + seq!['"'] + rest);
            lemma_scan_body_canonical(s, j + 1, acc.push(c), ctail, rest);
            assert(acc.push(c) + ctail =~= acc + content);
            assert(scan_string_body(s, j, acc) == scan_string_body(s, j + 1, acc.push(c)));
        }
    }
}

/// Scanning a quoted, escaped string yields exactly its content.
pub proof fn lemma_scan_quoted(s: Seq<char>, i: int, content: Seq<char>, rest: Seq<char>)
    requires
        0 <= i <= s.len(),
        valid_chars(content),
        s.skip(i) == quoted(content) + rest,
    ensures
        scan_string(s, i) == Some((content, i + quoted(content).len())),
{
    let tail = s.skip(i);
    assert(forall|k: int| 0 <= k < tail.len() ==> #[trigger] tail[k] == s[i + k]);
    assert(quoted(content).len() == esc(content).len() + 2);
    assert(tail.len() >= 2);
    assert(tail[0] == quoted(content)[0]);
    assert(quoted(content)[0] == '"');
    assert(s[i] == '"');
    assert(s.skip(i + 1) =~= tail.drop_first());
    assert(tail.drop_first() =~= esc(content) + seq!['"'] + rest);
    lemma_scan_body_canonical(s, i + 1, Seq::empty(), content, rest);
    assert(Seq::<char>::empty() + content =~= content);
}

/// Text that needs no escaping: no quote, no backslash, no control
/// character.
pub open spec fn plain(s: Seq<char>) -> bool {
    forall|k: int| 0 <= k < s.len() ==> #[trigger] s[k] != '"' && s[k] != '\\' && (s[k] as int) >= 32
}

/// Plain text escapes to itself, so its quoted form is `quoted_raw`.
pub proof fn lemma_esc_plain(s: Seq<char>)
    requires
        plain(s),
    ensures
        esc(s) == s,
        quoted(s) == quoted_raw(s),
    decreases s.len(),
{
    if s.len() == 0 {
        assert(esc(s) =~= s);
    } else {
        assert(s[0] != '"' && s[0] != '\\' && (s[0] as int) >= 32);
        assert(esc_char(s[0]) == seq![s[0]]);
        assert(forall|k: int|
            0 <= k < s.drop_first().len() ==> #[trigger] s.drop_first()[k] == s[k + 1]);
        lemma_esc_plain(s.drop_first());
        assert(esc(s) =~= s);
    }
    assert(quoted(s) =~= quoted_raw(s));
}

/// Base64url text is plain.
pub proof fn lemma_b64_plain(b: Seq<u8>)
    ensures
        plain(b64_encode(b)),
        valid_chars(b64_encode(b)),
    decreases b.len(),
{
    assert(forall|v: int|
        0 <= v < 64 ==> #[trigger] b64_char_of(v) != '"' && b64_char_of(v) != '\\' && 32 <= (
        b64_char_of(v) as int) < 1114112);
    let e = b64_encode(b);
    if b.len() == 0 {
    } else if b.len() == 1 {
        let b0 = b[0] as int;
        assert(e.len() == 2);
        assert(e[0] == b64_char_of(b0 / 4) && e[1] == b64_char_of((b0 % 4) * 16));
        assert(0 <= b0 / 4 < 64 && 0 <= (b0 % 4) * 16 < 64);
    } else if b.len() == 2 {
        let b0 = b[0] as int;
        let b1 = b[1] as int;
        assert(e.len() == 3);
        assert(e[0] == b64_char_of(b0 / 4) && e[1] == b64_char_of((b0 % 4) * 16 + b1 / 16)
            && e[2] == b64_char_of((b1 % 16) * 4));
        assert(0 <= b0 / 4 < 64 && 0 <= (b0 % 4) * 16 + b1 / 16 < 64 && 0 <= (b1 % 16) * 4 < 64);
    } else {
        let b0 = b[0] as int;
        let b1 = b[1] as int;
        let b2 = b[2] as int;
        lemma_b64_plain(b.skip(3));
        assert(e[0] == b64_char_of(b0 / 4) && e[1] == b64_char_of((b0 % 4) * 16 + b1 / 16)
            && e[2] == b64_char_of((b1 % 16) * 4 + b2 / 64) && e[3] == b64_char_of(b2 % 64));
        assert(0 <= b0 / 4 < 64 && 0 <= (b0 % 4) * 16 + b1 / 16 < 64 && 0 <= (b1 % 16) * 4 + b2
            / 64 < 64 && 0 <= b2 % 64 < 64);
        assert(forall|k: int|
            4 <= k < e.len() ==> #[trigger] e[k] == b64_encode(b.skip(3))[k - 4]);
    }
}

/// Decimal digits are plain.
pub proof fn lemma_dec_chars_plain(n: nat)
    ensures
        plain(dec_chars(n)),
        valid_chars(dec_chars(n)),
{
    crate::utils::lemma_dec_chars_are_digits(n);
    assert(forall|k: int|
        0 <= k < dec_chars(n).len() ==> crate::utils::is_digit(#[trigger] dec_chars(n)[k]));
}

/// A decimal segment followed by more text reads back as its value.
proof fn lemma_scan_dec(s: Seq<char>, i: int, n: u64, rest: Seq<char>)
    requires
        0 <= i <= s.len(),
        s.skip(i) == dec_chars(n as nat) + rest,
        rest.len() > 0,
        !crate::utils::is_digit(rest[0]),
    ensures
        scan_u64_spec(s, i) == Some((n as int, i + dec_chars(n as nat).len())),
{
    crate::utils::lemma_leading_digits_of_dec(n as nat, rest);
    crate::utils::lemma_digits_value_of_dec(n as nat);
}

/// On a canonical raw-status body the scanner yields exactly the record.
proof fn lemma_scan_raw_canonical(s: Seq<char>, i: int, rv: RawStatusView, rest: Seq<char>)
    requires
        0 <= i <= s.len(),
        valid_chars(rv.block_indep_hash),
        s.skip(i) == raw_status_json(rv) + rest,
    ensures
        scan_raw_status(s, i) == Some((rv, i + raw_status_json(rv).len())),
{
    let l1 = "{\"block_height\":"@;
    let d1 = dec_chars(rv.block_height as nat);
    let l2 = ",\"block_indep_hash\":"@;
    let q = quoted(rv.block_indep_hash);
    let l3 = ",\"number_of_confirmations\":"@;
    let d2 = dec_chars(rv.number_of_confirmations as nat);
    let rb = "}"@;
    let r6 = rb + rest;
    let r5 = d2 + r6;
    let r4 = l3 + r5;
    let r3 = q + r4;
    let r2 = l2 + r3;
    let r1 = d1 + r2;
    assert(s.skip(i) =~= l1 + r1);
    lemma_split_at(s, i, l1, r1);
    let j1 = i + l1.len() as int;
    reveal_strlit(",\"block_indep_hash\":");
    reveal_strlit("}");
    assert(r2[0] == l2[0]);
    assert(!crate::utils::is_digit(l2[0]));
    lemma_scan_dec(s, j1, rv.block_height, r2);
    lemma_split_at(s, j1, d1, r2);
    let j2 = j1 + d1.len() as int;
    lemma_split_at(s, j2, l2, r3);
    let j3 = j2 + l2.len() as int;
    lemma_scan_quoted(s, j3, rv.block_indep_hash, r4);
    lemma_split_at(s, j3, q, r4);
    let j4 = j3 + q.len() as int;
    lemma_split_at(s, j4, l3, r5);
    let j5 = j4 + l3.len() as int;
    assert(r6[0] == rb[0]);
    assert(!crate::utils::is_digit(rb[0]));
    lemma_scan_dec(s, j5, rv.number_of_confirmations, r6);
    lemma_split_at(s, j5, d2, r6);
    let j6 = j5 + d2.len() as int;
    lemma_split_at(s, j6, rb, rest);
    let j7 = j6 + rb.len() as int;
    assert(scan_raw_status(s, i) matches Some(p) && p.1 == j7 && p.0 =~= rv);
    assert(j7 == i + raw_status_json(rv).len());
}

} // verus!

verus! {

/// Whether a record's text fields hold real characters; serialization
/// laws are stated for such records.
pub open spec fn status_wf(v: StatusView) -> bool {
    &&& (match v.file_path {
        Some(p) => valid_chars(p),
        None => true,
    })
    &&& valid_chars(v.created_at)
    &&& valid_chars(v.last_modified)
    &&& (match v.raw_status {
        Some(rv) => valid_chars(rv.block_indep_hash),
        None => true,
    })
}

/// On a canonical base64url field the scanner yields exactly the bytes.
proof fn lemma_scan_b64_field(s: Seq<char>, i: int, bytes: Seq<u8>, rest: Seq<char>)
    requires
        0 <= i <= s.len(),
        s.skip(i) == quoted_raw(b64_encode(bytes)) + rest,
    ensures
        scan_b64(s, i) == Some((bytes, i + quoted_raw(b64_encode(bytes)).len())),
{
    lemma_b64_plain(bytes);
    lemma_esc_plain(b64_encode(bytes));
    lemma_scan_quoted(s, i, b64_encode(bytes), rest);
    crate::base64::lemma_base64_round_trip(bytes);
}

/// On a canonical status keyword the scanner yields exactly the code.
proof fn lemma_scan_code_field(s: Seq<char>, i: int, c: StatusCode, rest: Seq<char>)
    requires
        0 <= i <= s.len(),
        s.skip(i) == quoted_raw(status_code_str(c)) + rest,
    ensures
        scan_code(s, i) == Some((c, i + quoted_raw(status_code_str(c)).len())),
{
    reveal_strlit("Submitted");
    reveal_strlit("Pending");
    reveal_strlit("NotFound");
    reveal_strlit("Confirmed");
    reveal_strlit("Failed");
    let kw = status_code_str(c);
    assert(plain(kw) && valid_chars(kw)) by {
        match c {
            StatusCode::Submitted => assert(plain("Submitted"@) && valid_chars("Submitted"@)),
            StatusCode::Pending => assert(plain("Pending"@) && valid_chars("Pending"@)),
            StatusCode::NotFound => assert(plain("NotFound"@) && valid_chars("NotFound"@)),
            StatusCode::Confirmed => assert(plain("Confirmed"@) && valid_chars("Confirmed"@)),
            StatusCode::Failed => assert(plain("Failed"@) && valid_chars("Failed"@)),
        }
    }
    lemma_esc_plain(kw);
    lemma_scan_quoted(s, i, kw, rest);
}

/// From a canonical second half, the tail scanner yields the record.
#[verifier::rlimit(100)]
proof fn lemma_scan_status_tail(
    s: Seq<char>,
    i: int,
    v: StatusView,
    id: Seq<u8>,
    status: StatusCode,
    file_path: Option<Seq<char>>,
)
    requires
        status_wf(v),
        0 <= i <= s.len(),
        id == v.id,
        status == v.status,
        file_path == v.file_path,
        s.skip(i) == ",\"created_at\":"@ + (quoted(v.created_at) + (",\"last_modified\":"@ + (
        quoted(v.last_modified) + (",\"reward\":"@ + (dec_chars(v.reward as nat) + (
        ",\"raw_status\":"@ + ((match v.raw_status {
            Some(rv) => raw_status_json(rv),
            None => "null"@,
        }) + ("}"@ + Seq::<char>::empty())))))))),
        i + ",\"created_at\":"@.len() + quoted(v.created_at).len()
            + ",\"last_modified\":"@.len() + quoted(v.last_modified).len()
            + ",\"reward\":"@.len() + dec_chars(v.reward as nat).len()
            + ",\"raw_status\":"@.len() + (match v.raw_status {
            Some(rv) => raw_status_json(rv),
            None => "null"@,
        }).len() + "}"@.len() == s.len(),
    ensures
        scan_status_tail(s, i, id, status, file_path) == Some(v),
{
    let m4 = ",\"created_at\":"@;
    let f4 = quoted(v.created_at);
    let m5 = ",\"last_modified\":"@;
    let f5 = quoted(v.last_modified);
    let m6 = ",\"reward\":"@;
    let f6 = dec_chars(v.reward as nat);
    let m7 = ",\"raw_status\":"@;
    let f7 = match v.raw_status {
        Some(rv) => raw_status_json(rv),
        None => "null"@,
    };
    let m8 = "}"@;
    let r15 = m8 + Seq::<char>::empty();
    let r14 = f7 + r15;
    let r13 = m7 + r14;
    let r12 = f6 + r13;
    let r11 = m6 + r12;
    let r10 = f5 + r11;
    let r9 = m5 + r10;
    let r8 = f4 + r9;
    lemma_split_at(s, i, m4, r8);
    let j7 = i + m4.len() as int;
    lemma_scan_quoted(s, j7, v.created_at, r9);
    lemma_split_at(s, j7, f4, r9);
    let j8 = j7 + f4.len();
    lemma_split_at(s, j8, m5, r10);
    let j9 = j8 + m5.len();
    lemma_scan_quoted(s, j9, v.last_modified, r11);
    lemma_split_at(s, j9, f5, r11);
    let j10 = j9 + f5.len();
    lemma_split_at(s, j10, m6, r12);
    let j11 = j10 + m6.len();
    reveal_strlit(",\"raw_status\":");
    assert(r13[0] == m7[0]);
    assert(!crate::utils::is_digit(m7[0]));
    lemma_scan_dec(s, j11, v.reward, r13);
    lemma_split_at(s, j11, f6, r13);
    let j12 = j11 + f6.len();
    lemma_split_at(s, j12, m7, r14);
    let j13 = j12 + m7.len();
    reveal_strlit("null");
    assert(s.skip(j13) == r14);
    match v.raw_status {
        Some(rv) => {
            reveal_strlit("{\"block_height\":");
            assert(f7.len() > 0);
            assert(s[j13] == s.skip(j13)[0]);
            assert(s.skip(j13)[0] == f7[0]);
            assert(s[j13] == f7[0]);
            assert(f7[0] == "{\"block_height\":"@[0]);
            assert(f7[0] == '{');
            assert(s[j13] != 'n');
            lemma_scan_raw_canonical(s, j13, rv, r15);
            assert(scan_opt_raw(s, j13) == Some((Some(rv), j13 + f7.len())));
        },
        None => {
            assert(f7.len() > 0);
            assert(s[j13] == s.skip(j13)[0]);
            assert(s.skip(j13)[0] == f7[0]);
            assert(s[j13] == f7[0]);
            assert(f7[0] == 'n');
            lemma_split_at(s, j13, "null"@, r15);
            assert(scan_opt_raw(s, j13) == Some((None::<RawStatusView>, j13 + f7.len())));
        },
    }
    lemma_split_at(s, j13, f7, r15);
    let j14 = j13 + f7.len();
    assert(r15 =~= m8 + Seq::<char>::empty());
    lemma_split_at(s, j14, m8, Seq::empty());
    let j15 = j14 + m8.len();
    assert(j15 == s.len());
    assert(scan_status_tail(s, i, id, status, file_path) matches Some(w) && w =~= v);
}

/// The canonical rendering rebracketed head-first.
#[verifier::rlimit(100)]
proof fn lemma_status_json_shape(s: Seq<char>, v: StatusView)
    requires
        s == status_json(v),
    ensures
        s.skip(0) == "{\"id\":"@ + (quoted_raw(b64_encode(v.id)) + (",\"status\":"@ + (
        quoted_raw(status_code_str(v.status)) + (",\"file_path\":"@ + ((match v.file_path {
            Some(p) => quoted(p),
            None => "null"@,
        }) + (",\"created_at\":"@ + (quoted(v.created_at) + (",\"last_modified\":"@ + (
        quoted(v.last_modified) + (",\"reward\":"@ + (dec_chars(v.reward as nat) + (
        ",\"raw_status\":"@ + ((match v.raw_status {
            Some(rv) => raw_status_json(rv),
            None => "null"@,
        }) + ("}"@ + Seq::<char>::empty())))))))))))))),
{
    let m1 = "{\"id\":"@;
    let f1 = quoted_raw(b64_encode(v.id));
    let m2 = ",\"status\":"@;
    let f2 = quoted_raw(status_code_str(v.status));
    let m3 = ",\"file_path\":"@;
    let f3 = match v.file_path {
        Some(p) => quoted(p),
        None => "null"@,
    };
    let m4 = ",\"created_at\":"@;
    let f4 = quoted(v.created_at);
    let m5 = ",\"last_modified\":"@;
    let f5 = quoted(v.last_modified);
    let m6 = ",\"reward\":"@;
    let f6 = dec_chars(v.reward as nat);
    let m7 = ",\"raw_status\":"@;
    let f7 = match v.raw_status {
        Some(rv) => raw_status_json(rv),
        None => "null"@,
    };
    let m8 = "}"@;
    let r15 = m8 + Seq::<char>::empty();
    let r14 = f7 + r15;
    let r13 = m7 + r14;
    let r12 = f6 + r13;
    let r11 = m6 + r12;
    let r10 = f5 + r11;
    let r9 = m5 + r10;
    let r8 = f4 + r9;
    let r7 = m4 + r8;
    let r6 = f3 + r7;
    let r5 = m3 + r6;
    let r4 = f2 + r5;
    let r3 = m2 + r4;
    let r2 = f1 + r3;
    // Rebracket the canonical rendering one node at a time.
    let p1 = m1;
    let p2 = p1 + f1;
    let p3 = p2 + m2;
    let p4 = p3 + f2;
    let p5 = p4 + m3;
    let p6 = p5 + f3;
    let p7 = p6 + m4;
    let p8 = p7 + f4;
    let p9 = p8 + m5;
    let p10 = p9 + f5;
    let p11 = p10 + m6;
    let p12 = p11 + f6;
    let p13 = p12 + m7;
    let p14 = p13 + f7;
    assert(s == p14 + m8);
    assert(p14 + m8 =~= p14 + r15);
    assert(p14 + r15 =~= p13 + r14);
    assert(p13 + r14 =~= p12 + r13);
    assert(p12 + r13 =~= p11 + r12);
    assert(p11 + r12 =~= p10 + r11);
    assert(p10 + r11 =~= p9 + r10);
    assert(p9 + r10 =~= p8 + r9);
    assert(p8 + r9 =~= p7 + r8);
    assert(p7 + r8 =~= p6 + r7);
    assert(p6 + r7 =~= p5 + r6);
    assert(p5 + r6 =~= p4 + r5);
    assert(p4 + r5 =~= p3 + r4);
    assert(p3 + r4 =~= p2 + r3);
    assert(p2 + r3 =~= p1 + r2);
    assert(s.skip(0) =~= m1 + r2);
}

/// On a canonical status rendering the scanner yields exactly the record.
#[verifier::rlimit(100)]
proof fn lemma_scan_status_canonical(s: Seq<char>, v: StatusView)
    requires
        status_wf(v),
        s == status_json(v),
    ensures
        scan_status(s) == Some(v),
{
    let m1 = "{\"id\":"@;
    let f1 = quoted_raw(b64_encode(v.id));
    let m2 = ",\"status\":"@;
    let f2 = quoted_raw(status_code_str(v.status));
    let m3 = ",\"file_path\":"@;
    let f3 = match v.file_path {
        Some(p) => quoted(p),
        None => "null"@,
    };
    let m4 = ",\"created_at\":"@;
    let f4 = quoted(v.created_at);
    let m5 = ",\"last_modified\":"@;
    let f5 = quoted(v.last_modified);
    let m6 = ",\"reward\":"@;
    let f6 = dec_chars(v.reward as nat);
    let m7 = ",\"raw_status\":"@;
    let f7 = match v.raw_status {
        Some(rv) => raw_status_json(rv),
        None => "null"@,
    };
    let m8 = "}"@;
    let r15 = m8 + Seq::<char>::empty();
    let r14 = f7 + r15;
    let r13 = m7 + r14;
    let r12 = f6 + r13;
    let r11 = m6 + r12;
    let r10 = f5 + r11;
    let r9 = m5 + r10;
    let r8 = f4 + r9;
    let r7 = m4 + r8;
    let r6 = f3 + r7;
    let r5 = m3 + r6;
    let r4 = f2 + r5;
    let r3 = m2 + r4;
    let r2 = f1 + r3;
    lemma_status_json_shape(s, v);
    assert(s.skip(0) == m1 + r2);
    lemma_split_at(s, 0, m1, r2);
    let j1 = m1.len() as int;
    lemma_scan_b64_field(s, j1, v.id, r3);
    lemma_split_at(s, j1, f1, r3);
    let j2 = j1 + f1.len();
    lemma_split_at(s, j2, m2, r4);
    let j3 = j2 + m2.len();
    lemma_scan_code_field(s, j3, v.status, r5);
    lemma_split_at(s, j3, f2, r5);
    let j4 = j3 + f2.len();
    lemma_split_at(s, j4, m3, r6);
    let j5 = j4 + m3.len();
    reveal_strlit("null");
    match v.file_path {
        Some(p) => {
            assert(s[j5] == f3[0]);
            assert(f3[0] == '"');
            assert(s[j5] != 'n');
            lemma_scan_quoted(s, j5, p, r7);
            assert(scan_opt_string(s, j5) == Some((Some(p), j5 + f3.len())));
        },
        None => {
            assert(s[j5] == f3[0]);
            assert(f3[0] == 'n');
            lemma_split_at(s, j5, "null"@, r7);
            assert(scan_opt_string(s, j5) == Some((None::<Seq<char>>, j5 + f3.len())));
        },
    }
    lemma_split_at(s, j5, f3, r7);
    let j6 = j5 + f3.len();
    assert(j6 + m4.len() + f4.len() + m5.len() + f5.len() + m6.len() + f6.len() + m7.len()
        + f7.len() + m8.len() == s.len());
    lemma_scan_status_tail(s, j6, v, v.id, v.status, v.file_path);
    assert(scan_status(s) == Some(v));
}

} // verus!

verus! {

/// On a canonical quoted decimal the scanner yields exactly the value.
proof fn lemma_scan_quoted_dec(s: Seq<char>, i: int, n: u64, rest: Seq<char>)
    requires
        0 <= i <= s.len(),
        s.skip(i) == quoted_raw(dec_chars(n as nat)) + rest,
    ensures
        scan_quoted_u64(s, i) == Some((n as int, i + quoted_raw(dec_chars(n as nat)).len())),
{
    let d = dec_chars(n as nat);
    let tail = s.skip(i);
    assert(forall|k: int| 0 <= k < tail.len() ==> #[trigger] tail[k] == s[i + k]);
    assert(quoted_raw(d).len() == d.len() + 2);
    assert(tail[0] == quoted_raw(d)[0]);
    assert(s[i] == '"');
    assert(s.skip(i + 1) =~= tail.drop_first());
    assert(tail.drop_first() =~= d + (seq!['"'] + rest));
    assert((seq!['"'] + rest)[0] == '"');
    assert(!crate::utils::is_digit('"'));
    lemma_scan_dec(s, i + 1, n, seq!['"'] + rest);
    lemma_split_at(s, i + 1, d, seq!['"'] + rest);
    let j = i + 1 + d.len();
    assert(s[j] == s.skip(j)[0]);
    assert(s.skip(j)[0] == '"');
}

/// On a canonical tag object the scanner yields exactly its sides.
proof fn lemma_scan_tag_canonical(s: Seq<char>, i: int, name: Seq<u8>, value: Seq<u8>, rest: Seq<char>)
    requires
        0 <= i <= s.len(),
        s.skip(i) == tag_json(name, value) + rest,
    ensures
        scan_tag(s, i) == Some(((name, value), i + tag_json(name, value).len())),
        tag_json(name, value).len() > 0,
{
    let l1 = "{\"name\":"@;
    let f1 = quoted_raw(b64_encode(name));
    let l2 = ",\"value\":"@;
    let f2 = quoted_raw(b64_encode(value));
    let l3 = "}"@;
    let r4 = l3 + rest;
    let r3 = f2 + r4;
    let r2 = l2 + r3;
    let r1 = f1 + r2;
    assert(s.skip(i) =~= l1 + r1);
    lemma_split_at(s, i, l1, r1);
    let j1 = i + l1.len() as int;
    lemma_scan_b64_field(s, j1, name, r2);
    lemma_split_at(s, j1, f1, r2);
    let j2 = j1 + f1.len();
    lemma_split_at(s, j2, l2, r3);
    let j3 = j2 + l2.len();
    lemma_scan_b64_field(s, j3, value, r4);
    lemma_split_at(s, j3, f2, r4);
    let j4 = j3 + f2.len();
    lemma_split_at(s, j4, l3, rest);
    reveal_strlit("{\"name\":");
}

/// From tag `k` on, a canonical tag list scans to exactly its views.
#[verifier::rlimit(100)]
proof fn lemma_scan_tags_rest_canonical(s: Seq<char>, i: int, tags: Seq<Tag>, k: int, rest: Seq<char>)
    requires
        0 <= i <= s.len(),
        0 <= k < tags.len(),
        s.skip(i) == tag_json(tags[k].name@, tags[k].value@) + (tags_json_from(tags, k + 1)
            + rest),
    ensures
        scan_tags_rest(s, i) == Some(
            (
                tag_views(tags).skip(k),
                i + tag_json(tags[k].name@, tags[k].value@).len() + tags_json_from(
                    tags,
                    k + 1,
                ).len(),
            ),
        ),
    decreases tags.len() - k,
{
    let tj = tag_json(tags[k].name@, tags[k].value@);
    let from1 = tags_json_from(tags, k + 1);
    lemma_scan_tag_canonical(s, i, tags[k].name@, tags[k].value@, from1 + rest);
    lemma_split_at(s, i, tj, from1 + rest);
    let j = i + tj.len() as int;
    let tv = (tags[k].name@, tags[k].value@);
    assert(tag_views(tags)[k] == tv);
    if k + 1 == tags.len() {
        assert(from1 == seq![']']);
        assert((from1 + rest)[0] == ']');
        assert(s[j] == s.skip(j)[0]);
        assert(s.skip(j)[0] == ']');
        assert(j < s.len());
        assert(scan_tags_rest(s, i) == Some((seq![tv], j + 1)));
        assert(tag_views(tags).skip(k) =~= seq![tv]);
    } else {
        let tj2 = tag_json(tags[k + 1].name@, tags[k + 1].value@);
        let from2 = tags_json_from(tags, k + 2);
        assert(from1 == seq![','] + tj2 + from2);
        assert((from1 + rest)[0] == ',');
        assert(s[j] == s.skip(j)[0]);
        assert(s.skip(j)[0] == ',');
        assert(j < s.len());
        assert(',' != ']');
        assert(s.skip(j + 1) =~= s.skip(j).drop_first());
        assert(s.skip(j).drop_first() =~= tj2 + (from2 + rest));
        lemma_scan_tags_rest_canonical(s, j + 1, tags, k + 1, rest);
        assert(seq![tv] + tag_views(tags).skip(k + 1) =~= tag_views(tags).skip(k));
        assert(scan_tags_rest(s, i) == Some(
            (tag_views(tags).skip(k), j + 1 + tj2.len() + from2.len()),
        ));
        assert(from1.len() == 1 + tj2.len() + from2.len());
    }
}

/// On a canonical tag list the scanner yields exactly its views.
#[verifier::rlimit(100)]
proof fn lemma_scan_tags_canonical(s: Seq<char>, i: int, tags: Seq<Tag>, rest: Seq<char>)
    requires
        0 <= i <= s.len(),
        s.skip(i) == tags_json(tags) + rest,
    ensures
        scan_tags(s, i) == Some((tag_views(tags), i + tags_json(tags).len())),
{
    let from0 = tags_json_from(tags, 0);
    reveal_strlit("[");
    assert("["@ =~= seq!['[']);
    assert(s.skip(i) =~= "["@ + (from0 + rest));
    lemma_split_at(s, i, "["@, from0 + rest);
    let j = i + 1;
    if tags.len() == 0 {
        assert(from0 == seq![']']);
        assert((from0 + rest)[0] == ']');
        assert(s[j] == s.skip(j)[0]);
        assert(s.skip(j)[0] == ']');
        assert(j < s.len());
        assert(tag_views(tags) =~= Seq::<(Seq<u8>, Seq<u8>)>::empty());
        assert(scan_tags(s, i) == Some((tag_views(tags), j + 1)));
    } else {
        let tj0 = tag_json(tags[0].name@, tags[0].value@);
        let from1 = tags_json_from(tags, 1);
        assert(from0 == tj0 + from1);
        reveal_strlit("{\"name\":");
        assert(tj0[0] == "{\"name\":"@[0]);
        assert((from0 + rest)[0] == tj0[0]);
        assert(s[j] == s.skip(j)[0]);
        assert(s.skip(j)[0] == '{');
        assert(j < s.len());
        assert('{' != ']');
        assert(s.skip(j) =~= tj0 + (from1 + rest));
        lemma_scan_tags_rest_canonical(s, j, tags, 0, rest);
        assert(tag_views(tags).skip(0) =~= tag_views(tags));
        assert(tags_json(tags).len() == 1 + tj0.len() + from1.len());
    }
}

} // verus!

verus! {

/// The second half of the canonical wire body, from `target` on, as one
/// right-nested chain.
spec fn tx_tail_chain(t: Transaction) -> Seq<char> {
    let r25 = "}"@ + Seq::<char>::empty();
    let r24 = quoted_raw(b64_encode(t.signature@)) + r25;
    let r23 = ",\"signature\":"@ + r24;
    let r22 = dec_chars(t.reward as nat) + r23;
    let r21 = ",\"reward\":"@ + r22;
    let r20 = quoted_raw(b64_encode(t.data_root@)) + r21;
    let r19 = ",\"data_root\":"@ + r20;
    let r18 = quoted_raw(dec_chars(t.data_size as nat)) + r19;
    let r17 = ",\"data_size\":"@ + r18;
    let r16 = quoted_raw(b64_encode(t.data@)) + r17;
    let r15 = ",\"data\":"@ + r16;
    let r14 = quoted_raw(dec_chars(t.quantity as nat)) + r15;
    let r13 = ",\"quantity\":"@ + r14;
    let r12 = quoted_raw(b64_encode(t.target@)) + r13;
    ",\"target\":"@ + r12
}

/// The whole canonical wire body as one right-nested chain.
spec fn tx_chain(t: Transaction) -> Seq<char> {
    let r11 = tx_tail_chain(t);
    let r10 = tags_json(t.tags@) + r11;
    let r9 = ",\"tags\":"@ + r10;
    let r8 = quoted_raw(b64_encode(t.owner@)) + r9;
    let r7 = ",\"owner\":"@ + r8;
    let r6 = quoted_raw(b64_encode(t.last_tx@)) + r7;
    let r5 = ",\"last_tx\":"@ + r6;
    let r4 = quoted_raw(b64_encode(t.id@)) + r5;
    let r3 = ",\"id\":"@ + r4;
    let r2 = dec_chars(t.format as nat) + r3;
    "{\"format\":"@ + r2
}

/// The tail segments appended left-to-right equal the tail chain.
#[verifier::rlimit(100)]
proof fn lemma_tx_tail_rebracket(mid: Seq<char>, t: Transaction)
    ensures
        mid + ",\"target\":"@ + quoted_raw(b64_encode(t.target@)) + ",\"quantity\":"@
            + quoted_raw(dec_chars(t.quantity as nat)) + ",\"data\":"@ + quoted_raw(
            b64_encode(t.data@),
        ) + ",\"data_size\":"@ + quoted_raw(dec_chars(t.data_size as nat)) + ",\"data_root\":"@
            + quoted_raw(b64_encode(t.data_root@)) + ",\"reward\":"@ + dec_chars(t.reward as nat)
            + ",\"signature\":"@ + quoted_raw(b64_encode(t.signature@)) + "}"@ == mid
            + tx_tail_chain(t),
{
    let m6 = ",\"target\":"@;
    let f6 = quoted_raw(b64_encode(t.target@));
    let m7 = ",\"quantity\":"@;
    let f7 = quoted_raw(dec_chars(t.quantity as nat));
    let m8 = ",\"data\":"@;
    let f8 = quoted_raw(b64_encode(t.data@));
    let m9 = ",\"data_size\":"@;
    let f9 = quoted_raw(dec_chars(t.data_size as nat));
    let m10 = ",\"data_root\":"@;
    let f10 = quoted_raw(b64_encode(t.data_root@));
    let m11 = ",\"reward\":"@;
    let f11 = dec_chars(t.reward as nat);
    let m12 = ",\"signature\":"@;
    let f12 = quoted_raw(b64_encode(t.signature@));
    let m13 = "}"@;
    let r25 = m13 + Seq::<char>::empty();
    let r24 = f12 + r25;
    let r23 = m12 + r24;
    let r22 = f11 + r23;
    let r21 = m11 + r22;
    let r20 = f10 + r21;
    let r19 = m10 + r20;
    let r18 = f9 + r19;
    let r17 = m9 + r18;
    let r16 = f8 + r17;
    let r15 = m8 + r16;
    let r14 = f7 + r15;
    let r13 = m7 + r14;
    let r12 = f6 + r13;
    let r11 = m6 + r12;
    let q1 = mid + m6;
    let q2 = q1 + f6;
    let q3 = q2 + m7;
    let q4 = q3 + f7;
    let q5 = q4 + m8;
    let q6 = q5 + f8;
    let q7 = q6 + m9;
    let q8 = q7 + f9;
    let q9 = q8 + m10;
    let q10 = q9 + f10;
    let q11 = q10 + m11;
    let q12 = q11 + f11;
    let q13 = q12 + m12;
    let q14 = q13 + f12;
    assert(q14 + m13 =~= q14 + r25);
    assert(q14 + r25 =~= q13 + r24);
    assert(q13 + r24 =~= q12 + r23);
    assert(q12 + r23 =~= q11 + r22);
    assert(q11 + r22 =~= q10 + r21);
    assert(q10 + r21 =~= q9 + r20);
    assert(q9 + r20 =~= q8 + r19);
    assert(q8 + r19 =~= q7 + r18);
    assert(q7 + r18 =~= q6 + r17);
    assert(q6 + r17 =~= q5 + r16);
    assert(q5 + r16 =~= q4 + r15);
    assert(q4 + r15 =~= q3 + r14);
    assert(q3 + r14 =~= q2 + r13);
    assert(q2 + r13 =~= q1 + r12);
    assert(q1 + r12 =~= mid + r11);
    assert(tx_tail_chain(t) == r11);
}

/// The canonical wire body rebracketed head-first.
#[verifier::rlimit(100)]
proof fn lemma_transaction_json_shape(s: Seq<char>, t: Transaction)
    requires
        s == transaction_json(t),
    ensures
        s.skip(0) == tx_chain(t),
{
    let m1 = "{\"format\":"@;
    let f1 = dec_chars(t.format as nat);
    let m2 = ",\"id\":"@;
    let f2 = quoted_raw(b64_encode(t.id@));
    let m3 = ",\"last_tx\":"@;
    let f3 = quoted_raw(b64_encode(t.last_tx@));
    let m4 = ",\"owner\":"@;
    let f4 = quoted_raw(b64_encode(t.owner@));
    let m5 = ",\"tags\":"@;
    let f5 = tags_json(t.tags@);
    let m6 = ",\"target\":"@;
    let f6 = quoted_raw(b64_encode(t.target@));
    let m7 = ",\"quantity\":"@;
    let f7 = quoted_raw(dec_chars(t.quantity as nat));
    let m8 = ",\"data\":"@;
    let f8 = quoted_raw(b64_encode(t.data@));
    let m9 = ",\"data_size\":"@;
    let f9 = quoted_raw(dec_chars(t.data_size as nat));
    let m10 = ",\"data_root\":"@;
    let f10 = quoted_raw(b64_encode(t.data_root@));
    let m11 = ",\"reward\":"@;
    let f11 = dec_chars(t.reward as nat);
    let m12 = ",\"signature\":"@;
    let f12 = quoted_raw(b64_encode(t.signature@));
    let m13 = "}"@;
    let r25 = m13 + Seq::<char>::empty();
    let r24 = f12 + r25;
    let r23 = m12 + r24;
    let r22 = f11 + r23;
    let r21 = m11 + r22;
    let r20 = f10 + r21;
    let r19 = m10 + r20;
    let r18 = f9 + r19;
    let r17 = m9 + r18;
    let r16 = f8 + r17;
    let r15 = m8 + r16;
    let r14 = f7 + r15;
    let r13 = m7 + r14;
    let r12 = f6 + r13;
    let r11 = m6 + r12;
    let r10 = f5 + r11;
    let r9 = m5 + r10;
    let r8 = f4 + r9;
    let r7 = m4 + r8;
    let r6 = f3 + r7;
    let r5 = m3 + r6;
    let r4 = f2 + r5;
    let r3 = m2 + r4;
    let r2 = f1 + r3;
    let p1 = m1;
    let p2 = p1 + f1;
    let p3 = p2 + m2;
    let p4 = p3 + f2;
    let p5 = p4 + m3;
    let p6 = p5 + f3;
    let p7 = p6 + m4;
    let p8 = p7 + f4;
    let p9 = p8 + m5;
    let p10 = p9 + f5;
    lemma_tx_tail_rebracket(p10, t);
    assert(s == p10 + tx_tail_chain(t));
    let r11x = tx_tail_chain(t);
    let r10x = f5 + r11x;
    let r9x = m5 + r10x;
    let r8x = f4 + r9x;
    let r7x = m4 + r8x;
    let r6x = f3 + r7x;
    let r5x = m3 + r6x;
    let r4x = f2 + r5x;
    let r3x = m2 + r4x;
    let r2x = f1 + r3x;
    assert(p10 + r11x =~= p9 + r10x);
    assert(p9 + r10x =~= p8 + r9x);
    assert(p8 + r9x =~= p7 + r8x);
    assert(p7 + r8x =~= p6 + r7x);
    assert(p6 + r7x =~= p5 + r6x);
    assert(p5 + r6x =~= p4 + r5x);
    assert(p4 + r5x =~= p3 + r4x);
    assert(p3 + r4x =~= p2 + r3x);
    assert(p2 + r3x =~= p1 + r2x);
    assert(s.skip(0) =~= m1 + r2x);
    assert(tx_chain(t) == m1 + r2x);
}

/// From a canonical second half, the tail scanner yields the fields.
#[verifier::rlimit(100)]
proof fn lemma_scan_transaction_tail(s: Seq<char>, i: int, t: Transaction)
    requires
        0 <= i <= s.len(),
        s.skip(i) == tx_tail_chain(t),
    ensures
        scan_transaction_tail(s, i) == Some(
            (
                (
                    t.target@,
                    t.quantity as int,
                    t.data@,
                    t.data_size as int,
                    t.data_root@,
                    t.reward as int,
                    t.signature@,
                ),
                s.len() as int,
            ),
        ),
{
    let m6 = ",\"target\":"@;
    let f6 = quoted_raw(b64_encode(t.target@));
    let m7 = ",\"quantity\":"@;
    let f7 = quoted_raw(dec_chars(t.quantity as nat));
    let m8 = ",\"data\":"@;
    let f8 = quoted_raw(b64_encode(t.data@));
    let m9 = ",\"data_size\":"@;
    let f9 = quoted_raw(dec_chars(t.data_size as nat));
    let m10 = ",\"data_root\":"@;
    let f10 = quoted_raw(b64_encode(t.data_root@));
    let m11 = ",\"reward\":"@;
    let f11 = dec_chars(t.reward as nat);
    let m12 = ",\"signature\":"@;
    let f12 = quoted_raw(b64_encode(t.signature@));
    let m13 = "}"@;
    let r25 = m13 + Seq::<char>::empty();
    let r24 = f12 + r25;
    let r23 = m12 + r24;
    let r22 = f11 + r23;
    let r21 = m11 + r22;
    let r20 = f10 + r21;
    let r19 = m10 + r20;
    let r18 = f9 + r19;
    let r17 = m9 + r18;
    let r16 = f8 + r17;
    let r15 = m8 + r16;
    let r14 = f7 + r15;
    let r13 = m7 + r14;
    let r12 = f6 + r13;
    assert(s.skip(i) == m6 + r12);
    lemma_split_at(s, i, m6, r12);
    let j1 = i + m6.len() as int;
    lemma_scan_b64_field(s, j1, t.target@, r13);
    lemma_split_at(s, j1, f6, r13);
    let j2 = j1 + f6.len();
    lemma_split_at(s, j2, m7, r14);
    let j3 = j2 + m7.len();
    lemma_scan_quoted_dec(s, j3, t.quantity, r15);
    lemma_split_at(s, j3, f7, r15);
    let j4 = j3 + f7.len();
    lemma_split_at(s, j4, m8, r16);
    let j5 = j4 + m8.len();
    lemma_scan_b64_field(s, j5, t.data@, r17);
    lemma_split_at(s, j5, f8, r17);
    let j6 = j5 + f8.len();
    lemma_split_at(s, j6, m9, r18);
    let j7 = j6 + m9.len();
    lemma_scan_quoted_dec(s, j7, t.data_size, r19);
    lemma_split_at(s, j7, f9, r19);
    let j8 = j7 + f9.len();
    lemma_split_at(s, j8, m10, r20);
    let j9 = j8 + m10.len();
    lemma_scan_b64_field(s, j9, t.data_root@, r21);
    lemma_split_at(s, j9, f10, r21);
    let j10 = j9 + f10.len();
    lemma_split_at(s, j10, m11, r22);
    let j11 = j10 + m11.len();
    reveal_strlit(",\"signature\":");
    assert(r23[0] == m12[0]);
    assert(!crate::utils::is_digit(m12[0]));
    lemma_scan_dec(s, j11, t.reward, r23);
    lemma_split_at(s, j11, f11, r23);
    let j12 = j11 + f11.len();
    lemma_split_at(s, j12, m12, r24);
    let j13 = j12 + m12.len();
    lemma_scan_b64_field(s, j13, t.signature@, r25);
    lemma_split_at(s, j13, f12, r25);
    let j14 = j13 + f12.len();
    assert(r25 =~= m13 + Seq::<char>::empty());
    lemma_split_at(s, j14, m13, Seq::empty());
    let j15 = j14 + m13.len();
    assert(j15 == s.len());
}

/// On a canonical wire body the scanner yields exactly the fields.
#[verifier::rlimit(100)]
proof fn lemma_scan_transaction_canonical(s: Seq<char>, t: Transaction)
    requires
        s == transaction_json(t),
    ensures
        scan_transaction(s) == Some(
            (
                (t.format as int, t.id@, t.last_tx@, t.owner@, tag_views(t.tags@)),
                (
                    t.target@,
                    t.quantity as int,
                    t.data@,
                    t.data_size as int,
                    t.data_root@,
                    t.reward as int,
                    t.signature@,
                ),
            ),
        ),
{
    let m1 = "{\"format\":"@;
    let f1 = dec_chars(t.format as nat);
    let m2 = ",\"id\":"@;
    let f2 = quoted_raw(b64_encode(t.id@));
    let m3 = ",\"last_tx\":"@;
    let f3 = quoted_raw(b64_encode(t.last_tx@));
    let m4 = ",\"owner\":"@;
    let f4 = quoted_raw(b64_encode(t.owner@));
    let m5 = ",\"tags\":"@;
    let f5 = tags_json(t.tags@);
    let m6 = ",\"target\":"@;
    let f6 = quoted_raw(b64_encode(t.target@));
    let m7 = ",\"quantity\":"@;
    let f7 = quoted_raw(dec_chars(t.quantity as nat));
    let m8 = ",\"data\":"@;
    let f8 = quoted_raw(b64_encode(t.data@));
    let m9 = ",\"data_size\":"@;
    let f9 = quoted_raw(dec_chars(t.data_size as nat));
    let m10 = ",\"data_root\":"@;
    let f10 = quoted_raw(b64_encode(t.data_root@));
    let m11 = ",\"reward\":"@;
    let f11 = dec_chars(t.reward as nat);
    let m12 = ",\"signature\":"@;
    let f12 = quoted_raw(b64_encode(t.signature@));
    let m13 = "}"@;
    let r25 = m13 + Seq::<char>::empty();
    let r24 = f12 + r25;
    let r23 = m12 + r24;
    let r22 = f11 + r23;
    let r21 = m11 + r22;
    let r20 = f10 + r21;
    let r19 = m10 + r20;
    let r18 = f9 + r19;
    let r17 = m9 + r18;
    let r16 = f8 + r17;
    let r15 = m8 + r16;
    let r14 = f7 + r15;
    let r13 = m7 + r14;
    let r12 = f6 + r13;
    let r11 = m6 + r12;
    let r10 = f5 + r11;
    let r9 = m5 + r10;
    let r8 = f4 + r9;
    let r7 = m4 + r8;
    let r6 = f3 + r7;
    let r5 = m3 + r6;
    let r4 = f2 + r5;
    let r3 = m2 + r4;
    let r2 = f1 + r3;
    lemma_transaction_json_shape(s, t);
    assert(tx_chain(t) == m1 + r2);
    assert(s.skip(0) == m1 + r2);
    lemma_split_at(s, 0, m1, r2);
    let j1 = m1.len() as int;
    reveal_strlit(",\"id\":");
    assert(r3[0] == m2[0]);
    assert(!crate::utils::is_digit(m2[0]));
    lemma_scan_dec(s, j1, t.format, r3);
    lemma_split_at(s, j1, f1, r3);
    let j2 = j1 + f1.len();
    lemma_split_at(s, j2, m2, r4);
    let j3 = j2 + m2.len();
    lemma_scan_b64_field(s, j3, t.id@, r5);
    lemma_split_at(s, j3, f2, r5);
    let j4 = j3 + f2.len();
    lemma_split_at(s, j4, m3, r6);
    let j5 = j4 + m3.len();
    lemma_scan_b64_field(s, j5, t.last_tx@, r7);
    lemma_split_at(s, j5, f3, r7);
    let j6 = j5 + f3.len();
    lemma_split_at(s, j6, m4, r8);
    let j7 = j6 + m4.len();
    lemma_scan_b64_field(s, j7, t.owner@, r9);
    lemma_split_at(s, j7, f4, r9);
    let j8 = j7 + f4.len();
    lemma_split_at(s, j8, m5, r10);
    let j9 = j8 + m5.len();
    lemma_scan_tags_canonical(s, j9, t.tags@, r11);
    lemma_split_at(s, j9, f5, r11);
    let j10 = j9 + f5.len();
    assert(s.skip(j10) == tx_tail_chain(t));
    lemma_scan_transaction_tail(s, j10, t);
}

} // verus!
