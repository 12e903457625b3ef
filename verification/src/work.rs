//! Work from the node: the block header, the message to hash and its hash.
use tiny_keccak::{Hasher, Keccak};
use vstd::prelude::*;
use vstd::string::*;
use vstd::utf8::*;
use crate::numbers;
use crate::text;
use crate::text::{abbreviate, abbreviates, chars_of, decimal_text};

verus! {

/// The header of the block to mine, without its nonce.
#[derive(Clone, Debug)]
pub struct Header {
    pub number: u64,
    pub parent_hash: String,
    pub timestamp: u64,
    pub miner: String,
    pub difficulty: String,
    pub transactions_root: String,
}

/// What the node wants mined.
#[derive(Clone, Debug)]
pub struct Template {
    pub header: Header,
    pub target: String,
    pub pending_tx_hashes: Vec<String>,
}

/// The message to hash, but for the nonce between its two parts.
#[derive(Clone)]
pub struct WorkPrefix {
    pub prefix: Vec<u8>,
    pub suffix: &'static [u8],
}

/// The beginning of the message: the header as JSON, up to the digits of the nonce.
/// [`law_message_is_header_json`] holds it against the whole object.
pub open spec fn prefix_text(header: Header) -> Seq<char> {
    "{\"number\":"@ + text::decimal(header.number as nat) + ",\"parentHash\":\""@
        + json_chars(header.parent_hash@) + "\",\"timestamp\":"@ + text::decimal(header.timestamp as nat)
        + ",\"miner\":\""@ + json_chars(header.miner@) + "\",\"difficulty\":\""@ + json_chars(
        header.difficulty@,
    ) + "\",\"transactionsRoot\":\""@ + json_chars(header.transactions_root@)
        + "\",\"nonce\":\""@
}

/// The end of the message, after the digits of the nonce.
pub open spec fn suffix_text() -> Seq<char> {
    "\"}"@
}

/// The bytes to hash for the block with this header and nonce.
pub open spec fn header_message(header: Header, nonce: u64) -> Seq<u8> {
    encode_utf8(prefix_text(header)) + encode_utf8(text::decimal(nonce as nat)) + encode_utf8(
        suffix_text(),
    )
}

impl WorkPrefix {
    /// The bytes to hash for `nonce`.
    pub open spec fn message(self, nonce: u64) -> Seq<u8> {
        self.prefix@ + encode_utf8(text::decimal(nonce as nat)) + self.suffix@
    }

    /// Whether this is the message of `header`.
    pub open spec fn is_of(self, header: Header) -> bool {
        &&& self.prefix@ == encode_utf8(prefix_text(header))
        &&& self.suffix@ == encode_utf8(suffix_text())
    }

    /// Writes the parts of the message that stay the same while nonces are tried.
    pub fn new(header: &Header) -> (work: Self)
        ensures
            work.is_of(*header),
    {
        let mut prefix = "{\"number\":".to_owned();
        prefix.append(decimal_text(header.number).as_str());
        prefix.append(",\"parentHash\":\"");
        push_json(&mut prefix, header.parent_hash.as_str());
        prefix.append("\",\"timestamp\":");
        prefix.append(decimal_text(header.timestamp).as_str());
        prefix.append(",\"miner\":\"");
        push_json(&mut prefix, header.miner.as_str());
        prefix.append("\",\"difficulty\":\"");
        push_json(&mut prefix, header.difficulty.as_str());
        prefix.append("\",\"transactionsRoot\":\"");
        push_json(&mut prefix, header.transactions_root.as_str());
        prefix.append("\",\"nonce\":\"");
        WorkPrefix { prefix: prefix.as_str().as_bytes_vec(), suffix: "\"}".as_bytes() }
    }

    /// Writes the bytes to hash for `nonce`.
    pub fn message_bytes(&self, nonce: u64) -> (message: Vec<u8>)
        ensures
            message@ == self.message(nonce),
    {
        let digits = decimal_text(nonce);
        let mut message: Vec<u8> = Vec::new();
        message.extend_from_slice(self.prefix.as_slice());
        message.extend_from_slice(digits.as_str().as_bytes());
        message.extend_from_slice(self.suffix);
        assert(message@ =~= self.message(nonce));
        message
    }
}

/// The Keccak-256 digest of `message`, as `tiny_keccak` computes it.
pub uninterp spec fn keccak256(message: Seq<u8>) -> Seq<u8>;

/// `tiny_keccak::Keccak::v256` with one `update` and `finalize`: the 32 bytes of the Keccak-256
/// digest of the message, which depends on nothing else.
#[verifier::external_body]
fn keccak256_digest(message: &[u8]) -> (digest: [u8; 32])
    ensures
        digest@ == keccak256(message@),
{
    let mut digest = [0u8; 32];
    let mut keccak = Keccak::v256();
    keccak.update(message);
    keccak.finalize(&mut digest);
    digest
}

/// The hash of the block with this nonce.
pub open spec fn block_hash(work: WorkPrefix, nonce: u64) -> Seq<u8> {
    keccak256(work.message(nonce))
}

/// Hashes the block with this nonce.
pub fn block_hash_bytes(work: &WorkPrefix, nonce: u64) -> (hash: [u8; 32])
    ensures
        hash@ == block_hash(*work, nonce),
{
    keccak256_digest(work.message_bytes(nonce).as_slice())
}

/// The hexadecimal digit `d`, for `d < 16`, in lower case.
pub open spec fn hex_digit(d: nat) -> char {
    if d < 10 {
        (48 + d) as char
    } else {
        (87 + d) as char
    }
}

/// `bytes` in hexadecimal: two digits for each byte, the higher one first.
pub open spec fn hex_digits(bytes: Seq<u8>) -> Seq<char> {
    Seq::new(
        bytes.len() * 2,
        |i: int|
            hex_digit(
                if i % 2 == 0 {
                    bytes[i / 2] as nat / 16
                } else {
                    bytes[i / 2] as nat % 16
                },
            ),
    )
}

/// `hex::encode`: two lower case hexadecimal digits for each byte, the higher one first.
#[verifier::external_body]
fn hex_encode(bytes: &[u8]) -> (digits: String)
    ensures
        digits@ == hex_digits(bytes@),
{
    hex::encode(bytes)
}

/// A hash as the node writes it.
pub open spec fn hash_text(hash: Seq<u8>) -> Seq<char> {
    "0x"@ + hex_digits(hash)
}

/// Writes a hash as the node does.
pub fn format_hash_hex(hash: &[u8; 32]) -> (text: String)
    ensures
        text@ == hash_text(hash@),
{
    "0x".to_owned().concat(hex_encode(hash.as_slice()).as_str())
}

/// Hashes of one length that are written alike are the same.
pub proof fn law_hash_text_is_injective(a: Seq<u8>, b: Seq<u8>)
    requires
        a.len() == b.len(),
        hash_text(a) == hash_text(b),
    ensures
        a == b,
{
    assert(hash_text(a).skip("0x"@.len() as int) == hex_digits(a));
    assert(hash_text(b).skip("0x"@.len() as int) == hex_digits(b));
    assert forall|i: int| 0 <= i < a.len() implies a[i] == b[i] by {
        assert(hex_digits(a)[2 * i] == hex_digits(b)[2 * i]);
        assert(hex_digits(a)[2 * i + 1] == hex_digits(b)[2 * i + 1]);
    }
    assert(a =~= b);
}

/// Different nonces give different messages.
pub proof fn law_messages_differ(work: WorkPrefix, a: u64, b: u64)
    requires
        a != b,
    ensures
        work.message(a) != work.message(b),
{
    if work.message(a) == work.message(b) {
        let x = encode_utf8(text::decimal(a as nat));
        let y = encode_utf8(text::decimal(b as nat));
        let from = work.prefix@.len() as int;
        assert(work.message(a).len() == from + x.len() + work.suffix@.len());
        assert(work.message(b).len() == from + y.len() + work.suffix@.len());
        assert(work.message(a).subrange(from, from + x.len()) == x);
        assert(work.message(b).subrange(from, from + y.len()) == y);
        encode_utf8_decode_utf8(text::decimal(a as nat));
        encode_utf8_decode_utf8(text::decimal(b as nat));
        numbers::law_decimal_is_injective(a as nat, b as nat);
    }
}

/// A character inside a JSON string, as `JSON.stringify` writes it.
pub open spec fn json_char(c: char) -> Seq<char> {
    if c == '\u{22}' {
        seq!['\u{5c}', '\u{22}']
    } else if c == '\u{5c}' {
        seq!['\u{5c}', '\u{5c}']
    } else if c == '\u{8}' {
        seq!['\u{5c}', 'b']
    } else if c == '\t' {
        seq!['\u{5c}', 't']
    } else if c == '\n' {
        seq!['\u{5c}', 'n']
    } else if c == '\u{c}' {
        seq!['\u{5c}', 'f']
    } else if c == '\r' {
        seq!['\u{5c}', 'r']
    } else if c <= '\u{1f}' {
        seq!['\u{5c}', 'u', '0', '0', hex_digit(c as nat / 16), hex_digit(c as nat % 16)]
    } else {
        seq![c]
    }
}

/// The characters of a JSON string for `s`, between its quotes.
pub open spec fn json_chars(s: Seq<char>) -> Seq<char>
    decreases s.len(),
{
    if s.len() == 0 {
        seq![]
    } else {
        json_chars(s.drop_last()) + json_char(s.last())
    }
}

fn hex_char(d: u8) -> (c: char)
    requires
        d < 16,
    ensures
        c == hex_digit(d as nat),
{
    if d < 10 {
        (48 + d) as char
    } else {
        (87 + d) as char
    }
}

fn push_json_char(out: &mut String, c: char)
    ensures
        final(out)@ == old(out)@ + json_char(c),
{
    let ghost before = out@;
    if c == '\u{22}' {
        out.push('\u{5c}');
        out.push('\u{22}');
    } else if c == '\u{5c}' {
        out.push('\u{5c}');
        out.push('\u{5c}');
    } else if c == '\u{8}' {
        out.push('\u{5c}');
        out.push('b');
    } else if c == '\t' {
        out.push('\u{5c}');
        out.push('t');
    } else if c == '\n' {
        out.push('\u{5c}');
        out.push('n');
    } else if c == '\u{c}' {
        out.push('\u{5c}');
        out.push('f');
    } else if c == '\r' {
        out.push('\u{5c}');
        out.push('r');
    } else if c <= '\u{1f}' {
        let code: u8 = c as u8;
        out.push('\u{5c}');
        out.push('u');
        out.push('0');
        out.push('0');
        out.push(hex_char(code / 16));
        out.push(hex_char(code % 16));
    } else {
        out.push(c);
    }
    assert(out@ =~= before + json_char(c));
}

/// Writes `s` as the characters of a JSON string, between its quotes.
fn push_json(out: &mut String, s: &str)
    ensures
        final(out)@ == old(out)@ + json_chars(s@),
{
    let ghost before = out@;
    let chars = chars_of(s);
    let mut i: usize = 0;
    assert(s@.take(0) == Seq::<char>::empty());
    assert(before + json_chars(s@.take(0)) == before);
    while i < chars.len()
        invariant
            chars@ == s@,
            i <= chars.len(),
            out@ == before + json_chars(s@.take(i as int)),
        decreases chars.len() - i,
    {
        let ghost done = s@.take(i as int);
        push_json_char(out, chars[i]);
        proof {
            let next = s@.take(i + 1);
            assert(next.drop_last() == done);
            assert(next.last() == chars@[i as int]);
            assert(before + json_chars(done) + json_char(chars@[i as int]) == before + (json_chars(
                done,
            ) + json_char(chars@[i as int])));
        }
        i += 1;
    }
    assert(s@.take(chars.len() as int) == s@);
}

/// The JSON string for `s`.
pub open spec fn json_string(s: Seq<char>) -> Seq<char> {
    "\""@ + json_chars(s) + "\""@
}

/// The header with its nonce as a JSON object, without white space and with its members in this
/// order. Numbers are written in decimal; the nonce is a string.
pub open spec fn header_json(header: Header, nonce: u64) -> Seq<char> {
    "{\"number\":"@ + text::decimal(header.number as nat) + ",\"parentHash\":"@ + json_string(
        header.parent_hash@,
    ) + ",\"timestamp\":"@ + text::decimal(header.timestamp as nat) + ",\"miner\":"@ + json_string(
        header.miner@,
    ) + ",\"difficulty\":"@ + json_string(header.difficulty@) + ",\"transactionsRoot\":"@
        + json_string(header.transactions_root@) + ",\"nonce\":"@ + json_string(
        text::decimal(nonce as nat),
    ) + "}"@
}

/// Whether `s` stands in JSON as it is.
spec fn is_json_plain(s: Seq<char>) -> bool {
    forall|i: int|
        0 <= i < s.len() ==> #[trigger] s[i] != '\u{22}' && s[i] != '\u{5c}' && s[i] >= ' '
}

proof fn lemma_plain_json_chars(s: Seq<char>)
    requires
        is_json_plain(s),
    ensures
        json_chars(s) == s,
    decreases s.len(),
{
    if s.len() > 0 {
        let init = s.drop_last();
        assert forall|i: int| 0 <= i < init.len() implies #[trigger] init[i] != '\u{22}' && init[i]
            != '\u{5c}' && init[i] >= ' ' by {
            assert(s[i] == init[i]);
        }
        lemma_plain_json_chars(init);
        assert(s[s.len() - 1] >= ' ');
        assert(init + seq![s.last()] == s);
    }
}

broadcast proof fn lemma_concat_regroups(a: Seq<char>, b: Seq<char>, c: Seq<char>)
    ensures
        #[trigger] (a + (b + c)) == a + b + c,
{
    assert(a + (b + c) =~= a + b + c);
}

proof fn lemma_quotes()
    ensures
        ",\"parentHash\":\""@ == ",\"parentHash\":"@ + "\""@,
        "\",\"timestamp\":"@ == "\""@ + ",\"timestamp\":"@,
        ",\"miner\":\""@ == ",\"miner\":"@ + "\""@,
        "\",\"difficulty\":\""@ == "\""@ + ",\"difficulty\":"@ + "\""@,
        "\",\"transactionsRoot\":\""@ == "\""@ + ",\"transactionsRoot\":"@ + "\""@,
        "\",\"nonce\":\""@ == "\""@ + ",\"nonce\":"@ + "\""@,
        "\"}"@ == "\""@ + "}"@,
{
    reveal_strlit("\"");
    assert(",\"parentHash\":\""@ == ",\"parentHash\":"@ + "\""@) by {
        reveal_strlit(",\"parentHash\":\"");
        reveal_strlit(",\"parentHash\":");
    }
    assert("\",\"timestamp\":"@ == "\""@ + ",\"timestamp\":"@) by {
        reveal_strlit("\",\"timestamp\":");
        reveal_strlit(",\"timestamp\":");
    }
    assert(",\"miner\":\""@ == ",\"miner\":"@ + "\""@) by {
        reveal_strlit(",\"miner\":\"");
        reveal_strlit(",\"miner\":");
    }
    assert("\",\"difficulty\":\""@ == "\""@ + ",\"difficulty\":"@ + "\""@) by {
        reveal_strlit("\",\"difficulty\":\"");
        reveal_strlit(",\"difficulty\":");
    }
    assert("\",\"transactionsRoot\":\""@ == "\""@ + ",\"transactionsRoot\":"@ + "\""@) by {
        reveal_strlit("\",\"transactionsRoot\":\"");
        reveal_strlit(",\"transactionsRoot\":");
    }
    assert("\",\"nonce\":\""@ == "\""@ + ",\"nonce\":"@ + "\""@) by {
        reveal_strlit("\",\"nonce\":\"");
        reveal_strlit(",\"nonce\":");
    }
    assert("\"}"@ == "\""@ + "}"@) by {
        reveal_strlit("\"}");
        reveal_strlit("}");
    }
}

/// What is hashed is the header with its nonce as JSON.
pub proof fn law_message_is_header_json(header: Header, work: WorkPrefix, nonce: u64)
    requires
        work.is_of(header),
    ensures
        work.message(nonce) == encode_utf8(header_json(header, nonce)),
{
    let digits = text::decimal(nonce as nat);
    numbers::law_decimal_reads_back(nonce as nat);
    assert forall|i: int| 0 <= i < digits.len() implies #[trigger] digits[i] != '\u{22}' && digits[i]
        != '\u{5c}' && digits[i] >= ' ' by {
        assert(numbers::is_digit(digits[i]));
    }
    lemma_plain_json_chars(digits);
    lemma_quotes();
    assert(prefix_text(header) + digits + suffix_text() == header_json(header, nonce)) by {
        broadcast use lemma_concat_regroups;

    }
    text::lemma_encode_concat(prefix_text(header), digits);
    text::lemma_encode_concat(prefix_text(header) + digits, suffix_text());
}

/// The number that a hexadecimal digit stands for.
pub open spec fn hex_value(c: char) -> Option<nat> {
    if '0' <= c <= '9' {
        Some((c as int - '0' as int) as nat)
    } else if 'a' <= c <= 'f' {
        Some((c as int - 'a' as int + 10) as nat)
    } else if 'A' <= c <= 'F' {
        Some((c as int - 'A' as int + 10) as nat)
    } else {
        None
    }
}

/// The character that an escape at the beginning of `t` stands for, and how long the escape is.
/// An escape by number is read if it stands for a control character.
pub open spec fn escape_read(t: Seq<char>) -> Option<(char, int)> {
    if t.len() < 2 || t[0] != '\u{5c}' {
        None
    } else if t[1] == '\u{22}' || t[1] == '\u{5c}' || t[1] == '/' {
        Some((t[1], 2))
    } else if t[1] == 'b' {
        Some(('\u{8}', 2))
    } else if t[1] == 'f' {
        Some(('\u{c}', 2))
    } else if t[1] == 'n' {
        Some(('\n', 2))
    } else if t[1] == 'r' {
        Some(('\r', 2))
    } else if t[1] == 't' {
        Some(('\t', 2))
    } else if t[1] == 'u' && t.len() >= 6 && t[2] == '0' && t[3] == '0' {
        match (hex_value(t[4]), hex_value(t[5])) {
            (Some(high), Some(low)) => Some(((high * 16 + low) as char, 6)),
            _ => None,
        }
    } else {
        None
    }
}

/// Reads a JSON string whose opening quote stands before `t`: the text, and what follows the
/// closing quote.
pub open spec fn string_read(t: Seq<char>) -> Option<(Seq<char>, Seq<char>)>
    decreases t.len(),
{
    if t.len() == 0 {
        None
    } else if t[0] == '\u{22}' {
        Some((seq![], t.skip(1)))
    } else if t[0] == '\u{5c}' {
        match escape_read(t) {
            Some((c, len)) => match string_read(t.skip(len)) {
                Some((text, rest)) => Some((seq![c] + text, rest)),
                None => None,
            },
            None => None,
        }
    } else if t[0] <= '\u{1f}' {
        None
    } else {
        match string_read(t.skip(1)) {
            Some((text, rest)) => Some((seq![t[0]] + text, rest)),
            None => None,
        }
    }
}

/// How many digits `t` begins with.
pub open spec fn digit_run(t: Seq<char>) -> nat
    decreases t.len(),
{
    if t.len() > 0 && numbers::is_digit(t[0]) {
        1 + digit_run(t.skip(1))
    } else {
        0
    }
}

/// A value of a member of a JSON object.
pub enum JsonValue {
    Number(nat),
    Text(Seq<char>),
}

/// Reads a JSON value at the beginning of `t`: a string, or a number in decimal digits.
pub open spec fn value_read(t: Seq<char>) -> Option<(JsonValue, Seq<char>)> {
    if t.len() > 0 && t[0] == '\u{22}' {
        match string_read(t.skip(1)) {
            Some((text, rest)) => Some((JsonValue::Text(text), rest)),
            None => None,
        }
    } else if digit_run(t) > 0 {
        let len = digit_run(t) as int;
        Some((JsonValue::Number(numbers::digits_value(t.take(len))), t.skip(len)))
    } else {
        None
    }
}

/// Reads a member of a JSON object at the beginning of `t`: its name and its value.
pub open spec fn member_read(t: Seq<char>) -> Option<((Seq<char>, JsonValue), Seq<char>)> {
    if t.len() > 0 && t[0] == '\u{22}' {
        match string_read(t.skip(1)) {
            Some((name, after)) => if after.len() > 0 && after[0] == ':' {
                match value_read(after.skip(1)) {
                    Some((value, rest)) => Some(((name, value), rest)),
                    None => None,
                }
            } else {
                None
            },
            None => None,
        }
    } else {
        None
    }
}

/// Reads the members of a JSON object up to the brace that closes it, after which nothing may
/// follow.
pub open spec fn members_read(t: Seq<char>) -> Option<Seq<(Seq<char>, JsonValue)>>
    decreases t.len(),
{
    match member_read(t) {
        Some((member, rest)) => if rest == seq!['}'] {
            Some(seq![member])
        } else if 0 < rest.len() <= t.len() && rest[0] == ',' {
            match members_read(rest.skip(1)) {
                Some(members) => Some(seq![member] + members),
                None => None,
            }
        } else {
            None
        },
        None => None,
    }
}

/// Reads a JSON object of strings and numbers, without white space: its members in their order.
pub open spec fn object_read(t: Seq<char>) -> Option<Seq<(Seq<char>, JsonValue)>> {
    if t.len() > 0 && t[0] == '{' {
        members_read(t.skip(1))
    } else {
        None
    }
}

proof fn lemma_json_chars_front(s: Seq<char>)
    requires
        s.len() > 0,
    ensures
        json_chars(s) == json_char(s[0]) + json_chars(s.skip(1)),
    decreases s.len(),
{
    if s.len() == 1 {
        assert(s.drop_last() == Seq::<char>::empty());
        assert(s.skip(1) == Seq::<char>::empty());
        assert(json_chars(s.drop_last()) == Seq::<char>::empty());
        assert(json_chars(s.skip(1)) == Seq::<char>::empty());
        assert(Seq::<char>::empty() + json_char(s[0]) =~= json_char(s[0]) + Seq::<char>::empty());
    } else {
        let init = s.drop_last();
        lemma_json_chars_front(init);
        assert(init[0] == s[0]);
        assert(s.skip(1).drop_last() == init.skip(1));
        assert(s.skip(1).last() == s.last());
        assert(json_chars(s) =~= json_char(s[0]) + json_chars(s.skip(1)));
    }
}

proof fn lemma_escape_reads_back(c: char, next: Seq<char>)
    requires
        json_char(c).len() > 1,
    ensures
        escape_read(json_char(c) + next) == Some((c, json_char(c).len() as int)),
{
    let code = json_char(c);
    let t = code + next;
    assert(forall|i: int| 0 <= i < code.len() ==> t[i] == code[i]);
    if code.len() == 6 {
        let n = c as nat;
        assert(n / 16 <= 1 && n % 16 < 16 && n / 16 * 16 + n % 16 == n);
        assert(hex_value(code[4]) == Some(n / 16));
        assert(hex_value(code[5]) == Some(n % 16));
        assert(((n / 16) * 16 + n % 16) as char == c);
    }
}

proof fn lemma_string_reads_back(s: Seq<char>, rest: Seq<char>)
    ensures
        string_read(json_chars(s) + seq!['\u{22}'] + rest) == Some((s, rest)),
    decreases s.len(),
{
    let t = json_chars(s) + seq!['\u{22}'] + rest;
    if s.len() == 0 {
        assert(t[0] == '\u{22}');
        assert(t.skip(1) =~= rest);
        assert(s =~= seq![]);
    } else {
        let c = s[0];
        let code = json_char(c);
        let tail = s.skip(1);
        lemma_json_chars_front(s);
        lemma_string_reads_back(tail, rest);
        let next = json_chars(tail) + seq!['\u{22}'] + rest;
        assert(t =~= code + next);
        assert(t.skip(code.len() as int) =~= next);
        assert(forall|i: int| 0 <= i < code.len() ==> t[i] == code[i]);
        assert(seq![c] + tail =~= s);
        if code.len() > 1 {
            lemma_escape_reads_back(c, next);
        }
    }
}

proof fn lemma_digits_end(digits: Seq<char>, rest: Seq<char>)
    requires
        numbers::all_digits(digits),
        rest.len() > 0,
        !numbers::is_digit(rest[0]),
    ensures
        digit_run(digits + rest) == digits.len(),
    decreases digits.len(),
{
    let t = digits + rest;
    if digits.len() > 0 {
        let tail = digits.skip(1);
        assert(numbers::is_digit(digits[0]));
        assert forall|i: int| 0 <= i < tail.len() implies numbers::is_digit(#[trigger] tail[i]) by {
            assert(tail[i] == digits[i + 1]);
        }
        lemma_digits_end(tail, rest);
        assert(t.skip(1) =~= tail + rest);
        assert(t[0] == digits[0]);
    } else {
        assert(t[0] == rest[0]);
    }
}

#[verifier::opaque]
spec fn text_member(name: Seq<char>, text: Seq<char>) -> Seq<char> {
    seq!['\u{22}'] + name + seq!['\u{22}', ':', '\u{22}'] + json_chars(text) + seq!['\u{22}']
}

#[verifier::opaque]
spec fn number_member(name: Seq<char>, number: nat) -> Seq<char> {
    seq!['\u{22}'] + name + seq!['\u{22}', ':'] + text::decimal(number)
}

proof fn lemma_text_member_reads_back(name: Seq<char>, text: Seq<char>, rest: Seq<char>)
    requires
        is_json_plain(name),
    ensures
        member_read(text_member(name, text) + rest) == Some(((name, JsonValue::Text(text)), rest)),
{
    reveal(text_member);
    let t = text_member(name, text) + rest;
    let body = json_chars(text) + seq!['\u{22}'] + rest;
    let after = seq![':', '\u{22}'] + body;
    lemma_plain_json_chars(name);
    lemma_string_reads_back(name, after);
    lemma_string_reads_back(text, rest);
    assert(t[0] == '\u{22}');
    assert(t.skip(1) =~= json_chars(name) + seq!['\u{22}'] + after);
    assert(after[0] == ':');
    let value = after.skip(1);
    assert(value[0] == '\u{22}');
    assert(value.skip(1) =~= body);
}

proof fn lemma_number_member_reads_back(name: Seq<char>, number: nat, rest: Seq<char>)
    requires
        is_json_plain(name),
        rest.len() > 0,
        !numbers::is_digit(rest[0]),
    ensures
        member_read(number_member(name, number) + rest) == Some(
            ((name, JsonValue::Number(number)), rest),
        ),
{
    reveal(number_member);
    let t = number_member(name, number) + rest;
    let digits = text::decimal(number);
    let body = digits + rest;
    let after = seq![':'] + body;
    lemma_plain_json_chars(name);
    lemma_string_reads_back(name, after);
    numbers::law_decimal_reads_back(number);
    lemma_digits_end(digits, rest);
    assert(t[0] == '\u{22}');
    assert(t.skip(1) =~= json_chars(name) + seq!['\u{22}'] + after);
    assert(after[0] == ':');
    assert(after.skip(1) =~= body);
    assert(numbers::is_digit(digits[0]));
    assert(body[0] == digits[0]);
    assert(body.take(digits.len() as int) =~= digits);
    assert(body.skip(digits.len() as int) =~= rest);
}

proof fn lemma_members_go_on(text: Seq<char>, member: (Seq<char>, JsonValue), rest: Seq<char>)
    requires
        member_read(text + (seq![','] + rest)) == Some((member, seq![','] + rest)),
        members_read(rest) is Some,
    ensures
        members_read(followed(text, rest)) == Some(seq![member] + members_read(rest).unwrap()),
{
    reveal(followed);
    let after = seq![','] + rest;
    assert(after[0] == ',');
    assert(after != seq!['}']) by {
        assert(seq!['}'][0] == '}');
    }
    assert(after.skip(1) =~= rest);
}

proof fn lemma_text_goes_on(name: Seq<char>, text: Seq<char>, rest: Seq<char>)
    requires
        is_json_plain(name),
        members_read(rest) is Some,
    ensures
        members_read(followed(text_member(name, text), rest)) == Some(
            seq![(name, JsonValue::Text(text))] + members_read(rest).unwrap(),
        ),
{
    lemma_text_member_reads_back(name, text, seq![','] + rest);
    lemma_members_go_on(text_member(name, text), (name, JsonValue::Text(text)), rest);
}

proof fn lemma_number_goes_on(name: Seq<char>, number: nat, rest: Seq<char>)
    requires
        is_json_plain(name),
        members_read(rest) is Some,
    ensures
        members_read(followed(number_member(name, number), rest)) == Some(
            seq![(name, JsonValue::Number(number))] + members_read(rest).unwrap(),
        ),
{
    assert((seq![','] + rest)[0] == ',');
    lemma_number_member_reads_back(name, number, seq![','] + rest);
    lemma_members_go_on(number_member(name, number), (name, JsonValue::Number(number)), rest);
}

proof fn lemma_names()
    ensures
        "{\"number\":"@ == seq!['{'] + seq!['\u{22}'] + "number"@ + seq!['\u{22}', ':'],
        ",\"parentHash\":"@ == seq![','] + seq!['\u{22}'] + "parentHash"@ + seq!['\u{22}', ':'],
        ",\"timestamp\":"@ == seq![','] + seq!['\u{22}'] + "timestamp"@ + seq!['\u{22}', ':'],
        ",\"miner\":"@ == seq![','] + seq!['\u{22}'] + "miner"@ + seq!['\u{22}', ':'],
        ",\"difficulty\":"@ == seq![','] + seq!['\u{22}'] + "difficulty"@ + seq!['\u{22}', ':'],
        ",\"transactionsRoot\":"@ == seq![','] + seq!['\u{22}'] + "transactionsRoot"@ + seq![
            '\u{22}',
            ':',
        ],
        ",\"nonce\":"@ == seq![','] + seq!['\u{22}'] + "nonce"@ + seq!['\u{22}', ':'],
        "\""@ == seq!['\u{22}'],
        "}"@ == seq!['}'],
        is_json_plain("number"@),
        is_json_plain("parentHash"@),
        is_json_plain("timestamp"@),
        is_json_plain("miner"@),
        is_json_plain("difficulty"@),
        is_json_plain("transactionsRoot"@),
        is_json_plain("nonce"@),
{
    assert("\""@ =~= seq!['\u{22}']) by {
        reveal_strlit("\"");
    }
    assert("}"@ =~= seq!['}']) by {
        reveal_strlit("}");
    }
    assert("{\"number\":"@ == seq!['{'] + seq!['\u{22}'] + "number"@ + seq!['\u{22}', ':']
        && is_json_plain("number"@)) by {
        reveal_strlit("{\"number\":");
        reveal_strlit("number");
        assert("{\"number\":"@ =~= seq!['{'] + seq!['\u{22}'] + "number"@ + seq!['\u{22}', ':']);
    }
    assert(",\"parentHash\":"@ == seq![','] + seq!['\u{22}'] + "parentHash"@ + seq!['\u{22}', ':']
        && is_json_plain("parentHash"@)) by {
        reveal_strlit(",\"parentHash\":");
        reveal_strlit("parentHash");
        assert(",\"parentHash\":"@ =~= seq![','] + seq!['\u{22}'] + "parentHash"@ + seq!['\u{22}', ':']);
    }
    assert(",\"timestamp\":"@ == seq![','] + seq!['\u{22}'] + "timestamp"@ + seq!['\u{22}', ':']
        && is_json_plain("timestamp"@)) by {
        reveal_strlit(",\"timestamp\":");
        reveal_strlit("timestamp");
        assert(",\"timestamp\":"@ =~= seq![','] + seq!['\u{22}'] + "timestamp"@ + seq!['\u{22}', ':']);
    }
    assert(",\"miner\":"@ == seq![','] + seq!['\u{22}'] + "miner"@ + seq!['\u{22}', ':']
        && is_json_plain("miner"@)) by {
        reveal_strlit(",\"miner\":");
        reveal_strlit("miner");
        assert(",\"miner\":"@ =~= seq![','] + seq!['\u{22}'] + "miner"@ + seq!['\u{22}', ':']);
    }
    assert(",\"difficulty\":"@ == seq![','] + seq!['\u{22}'] + "difficulty"@ + seq!['\u{22}', ':']
        && is_json_plain("difficulty"@)) by {
        reveal_strlit(",\"difficulty\":");
        reveal_strlit("difficulty");
        assert(",\"difficulty\":"@ =~= seq![','] + seq!['\u{22}'] + "difficulty"@ + seq!['\u{22}', ':']);
    }
    assert(",\"transactionsRoot\":"@ == seq![','] + seq!['\u{22}'] + "transactionsRoot"@ + seq!['\u{22}', ':']
        && is_json_plain("transactionsRoot"@)) by {
        reveal_strlit(",\"transactionsRoot\":");
        reveal_strlit("transactionsRoot");
        assert(",\"transactionsRoot\":"@ =~= seq![','] + seq!['\u{22}'] + "transactionsRoot"@ + seq!['\u{22}', ':']);
    }
    assert(",\"nonce\":"@ == seq![','] + seq!['\u{22}'] + "nonce"@ + seq!['\u{22}', ':']
        && is_json_plain("nonce"@)) by {
        reveal_strlit(",\"nonce\":");
        reveal_strlit("nonce");
        assert(",\"nonce\":"@ =~= seq![','] + seq!['\u{22}'] + "nonce"@ + seq!['\u{22}', ':']);
    }
}

/// What a header with its nonce holds, member by member.
pub open spec fn header_members(header: Header, nonce: u64) -> Seq<(Seq<char>, JsonValue)> {
    seq![
        ("number"@, JsonValue::Number(header.number as nat)),
        ("parentHash"@, JsonValue::Text(header.parent_hash@)),
        ("timestamp"@, JsonValue::Number(header.timestamp as nat)),
        ("miner"@, JsonValue::Text(header.miner@)),
        ("difficulty"@, JsonValue::Text(header.difficulty@)),
        ("transactionsRoot"@, JsonValue::Text(header.transactions_root@)),
        ("nonce"@, JsonValue::Text(text::decimal(nonce as nat))),
    ]
}

#[verifier::opaque]
spec fn followed(member: Seq<char>, rest: Seq<char>) -> Seq<char> {
    member + (seq![','] + rest)
}

spec fn members_text(header: Header, nonce: u64) -> Seq<char> {
    let t7 = text_member("nonce"@, text::decimal(nonce as nat)) + seq!['}'];
    let t6 = followed(text_member("transactionsRoot"@, header.transactions_root@), t7);
    let t5 = followed(text_member("difficulty"@, header.difficulty@), t6);
    let t4 = followed(text_member("miner"@, header.miner@), t5);
    let t3 = followed(number_member("timestamp"@, header.timestamp as nat), t4);
    let t2 = followed(text_member("parentHash"@, header.parent_hash@), t3);
    followed(number_member("number"@, header.number as nat), t2)
}

#[verifier::rlimit(40)]
proof fn lemma_header_json_regrouped(header: Header, nonce: u64)
    ensures
        header_json(header, nonce) == seq!['{'] + members_text(header, nonce),
{
    reveal(text_member);
    reveal(number_member);
    reveal(followed);
    lemma_names();
    assert(seq!['\u{22}', ':', '\u{22}'] =~= seq!['\u{22}', ':'] + seq!['\u{22}']);
    broadcast use lemma_concat_regroups;

}

proof fn lemma_members_read_back(header: Header, nonce: u64)
    ensures
        members_read(members_text(header, nonce)) == Some(header_members(header, nonce)),
{
    lemma_names();
    let digits = text::decimal(nonce as nat);
    let t7 = text_member("nonce"@, digits) + seq!['}'];
    lemma_text_member_reads_back("nonce"@, digits, seq!['}']);
    assert(members_read(t7) == Some(seq![("nonce"@, JsonValue::Text(digits))]));
    lemma_text_goes_on("transactionsRoot"@, header.transactions_root@, t7);
    let t6 = followed(text_member("transactionsRoot"@, header.transactions_root@), t7);
    lemma_text_goes_on("difficulty"@, header.difficulty@, t6);
    let t5 = followed(text_member("difficulty"@, header.difficulty@), t6);
    lemma_text_goes_on("miner"@, header.miner@, t5);
    let t4 = followed(text_member("miner"@, header.miner@), t5);
    lemma_number_goes_on("timestamp"@, header.timestamp as nat, t4);
    let t3 = followed(number_member("timestamp"@, header.timestamp as nat), t4);
    lemma_text_goes_on("parentHash"@, header.parent_hash@, t3);
    let t2 = followed(text_member("parentHash"@, header.parent_hash@), t3);
    lemma_number_goes_on("number"@, header.number as nat, t2);
    assert(members_read(members_text(header, nonce)).unwrap() =~= header_members(header, nonce));
}

/// Reading the message as JSON gives back the header and the nonce: the seven members in their
/// order, each with exactly the value that it has in the header.
pub proof fn law_message_reads_back(header: Header, work: WorkPrefix, nonce: u64)
    requires
        work.is_of(header),
    ensures
        object_read(decode_utf8(work.message(nonce))) == Some(header_members(header, nonce)),
{
    law_message_is_header_json(header, work, nonce);
    encode_utf8_decode_utf8(header_json(header, nonce));
    lemma_header_json_regrouped(header, nonce);
    lemma_members_read_back(header, nonce);
    let t = seq!['{'] + members_text(header, nonce);
    assert(t[0] == '{');
    assert(t.skip(1) =~= members_text(header, nonce));
}

/// The message determines the header and the nonce: two blocks with the same message have the
/// same number, parent hash, timestamp, miner, difficulty, transactions root and nonce.
pub proof fn law_message_determines_header(
    a: Header,
    work_a: WorkPrefix,
    nonce_a: u64,
    b: Header,
    work_b: WorkPrefix,
    nonce_b: u64,
)
    requires
        work_a.is_of(a),
        work_b.is_of(b),
        work_a.message(nonce_a) == work_b.message(nonce_b),
    ensures
        a.number == b.number,
        a.parent_hash@ == b.parent_hash@,
        a.timestamp == b.timestamp,
        a.miner@ == b.miner@,
        a.difficulty@ == b.difficulty@,
        a.transactions_root@ == b.transactions_root@,
        nonce_a == nonce_b,
{
    law_message_reads_back(a, work_a, nonce_a);
    law_message_reads_back(b, work_b, nonce_b);
    let x = header_members(a, nonce_a);
    let y = header_members(b, nonce_b);
    assert(x == y);
    assert(x[0] == y[0] && x[1] == y[1] && x[2] == y[2] && x[3] == y[3] && x[4] == y[4] && x[5]
        == y[5] && x[6] == y[6]);
    numbers::law_decimal_is_injective(nonce_a as nat, nonce_b as nat);
}

/// Whether the parent hash and the target of `template` can be shown abbreviated.
pub open spec fn is_presentable(template: Template) -> bool {
    &&& text::can_abbreviate(template.header.parent_hash@, 12, 8)
    &&& text::can_abbreviate(template.target@, 18, 8)
}

/// Checks that the parent hash and the target can be shown abbreviated.
pub fn presentable(template: &Template) -> (presentable: bool)
    ensures
        presentable == is_presentable(*template),
{
    abbreviates(template.header.parent_hash.as_str(), 12, 8) && abbreviates(
        template.target.as_str(),
        18,
        8,
    )
}

/// The line that announces a block to mine.
pub open spec fn template_line(template: Template) -> Seq<char> {
    "[MINE] block #"@ + text::decimal(template.header.number as nat) + " | diff "@
        + template.header.difficulty@ + " | pending "@ + text::decimal(
        template.pending_tx_hashes@.len(),
    ) + " | parent "@ + text::abbreviated(template.header.parent_hash@, 12, 8) + " | target "@
        + text::abbreviated(template.target@, 18, 8) + "\n"@
}

/// Announces a block to mine.
pub fn print_block_header(template: &Template) -> (line: String)
    requires
        is_presentable(*template),
    ensures
        line@ == template_line(*template),
{
    let mut line = "[MINE] block #".to_owned();
    line.append(decimal_text(template.header.number).as_str());
    line.append(" | diff ");
    line.append(template.header.difficulty.as_str());
    line.append(" | pending ");
    line.append(decimal_text(template.pending_tx_hashes.len() as u64).as_str());
    line.append(" | parent ");
    line.append(abbreviate(template.header.parent_hash.as_str(), 12, 8).as_str());
    line.append(" | target ");
    line.append(abbreviate(template.target.as_str(), 18, 8).as_str());
    line.append("\n");
    line
}

/// The line that announces a block gives its number, its difficulty, how many transactions wait
/// and, abbreviated, the parent and the target.
pub proof fn law_template_line(template: Template)
    ensures
        text::says(
            template_line(template),
            Seq::empty()
                .push("[MINE] block #"@)
                .push(text::decimal(template.header.number as nat))
                .push(" | diff "@)
                .push(template.header.difficulty@)
                .push(" | pending "@)
                .push(text::decimal(template.pending_tx_hashes@.len()))
                .push(" | parent "@)
                .push(text::abbreviated(template.header.parent_hash@, 12, 8))
                .push(" | target "@)
                .push(text::abbreviated(template.target@, 18, 8))
                .push("\n"@),
        ),
{
    broadcast use {text::lemma_says_itself, text::lemma_says_more};

}

/// A hash is written as `0x` and two digits for each byte, the higher one first and none of them
/// in upper case, from which the byte is read back.
pub proof fn law_hash_text_reads_back(hash: Seq<u8>)
    ensures
        hash_text(hash).len() == 2 + 2 * hash.len(),
        hash_text(hash).take(2) == seq!['0', 'x'],
        forall|i: int|
            0 <= i < hash.len() ==> {
                let high = hex_value(hash_text(hash)[2 + 2 * i]);
                let low = hex_value(hash_text(hash)[3 + 2 * i]);
                high is Some && low is Some && high.unwrap() * 16 + low.unwrap()
                    == #[trigger] hash[i]
            },
        forall|i: int| 0 <= i < hash_text(hash).len() ==> !('A' <= #[trigger] hash_text(hash)[i] <= 'F'),
{
    reveal_strlit("0x");
    assert(hash_text(hash).take(2) =~= seq!['0', 'x']);
    assert forall|i: int| 0 <= i < hash_text(hash).len() implies !('A' <= #[trigger] hash_text(
        hash,
    )[i] <= 'F') by {
        if i >= 2 {
            assert(hash_text(hash)[i] == hex_digits(hash)[i - 2]);
        }
    }
    assert forall|i: int| 0 <= i < hash.len() implies {
        let high = hex_value(hash_text(hash)[2 + 2 * i]);
        let low = hex_value(hash_text(hash)[3 + 2 * i]);
        high is Some && low is Some && high.unwrap() * 16 + low.unwrap() == #[trigger] hash[i]
    } by {
        let b = hash[i] as nat;
        assert(hash_text(hash)[2 + 2 * i] == hex_digits(hash)[2 * i]);
        assert(hash_text(hash)[3 + 2 * i] == hex_digits(hash)[2 * i + 1]);
        assert(b / 16 < 16 && b % 16 < 16 && b / 16 * 16 + b % 16 == b);
        assert((2 * i) / 2 == i && (2 * i + 1) / 2 == i);
        assert(hex_value(hex_digit(b / 16)) == Some(b / 16));
        assert(hex_value(hex_digit(b % 16)) == Some(b % 16));
    }
}

/// Only quotes, backslashes and control characters are escaped, each by the shortest escape that
/// stands for it, without upper case digits.
pub proof fn law_json_escapes(c: char)
    ensures
        c > '\u{1f}' && c != '\u{22}' && c != '\u{5c}' <==> json_char(c) == seq![c],
        json_char(c) != seq![c] ==> {
            &&& escape_read(json_char(c)) == Some((c, json_char(c).len() as int))
            &&& forall|e: Seq<char>| #[trigger]
                escape_read(e) == Some((c, e.len() as int)) ==> json_char(c).len() <= e.len()
            &&& forall|i: int| 0 <= i < json_char(c).len() ==> !('A' <= #[trigger] json_char(c)[i] <= 'F')
        },
{
    if json_char(c).len() > 1 {
        lemma_escape_reads_back(c, Seq::<char>::empty());
        assert(json_char(c) + Seq::<char>::empty() =~= json_char(c));
        assert(seq![c].len() == 1);
    }
    if json_char(c).len() == 6 {
        let n = c as nat;
        assert(n / 16 <= 1 && n % 16 < 16);
    }
}

/// A text without quotes, backslashes and control characters stands in the message as it is.
pub proof fn law_plain_text_is_not_escaped(s: Seq<char>)
    requires
        forall|i: int|
            0 <= i < s.len() ==> s[i] > '\u{1f}' && s[i] != '\u{22}' && s[i] != '\u{5c}',
    ensures
        json_chars(s) == s,
{
    lemma_plain_json_chars(s);
}

/// The hash of a block is the Keccak-256 digest of a message that reads as its header with its
/// nonce.
pub proof fn law_block_hash_is_of_header(header: Header, work: WorkPrefix, nonce: u64)
    requires
        work.is_of(header),
    ensures
        exists|message: Seq<u8>|
            {
                &&& valid_utf8(message)
                &&& object_read(decode_utf8(message)) == Some(header_members(header, nonce))
                &&& block_hash(work, nonce) == #[trigger] keccak256(message)
            },
        header_message(header, nonce) == work.message(nonce),
{
    law_message_reads_back(header, work, nonce);
    law_message_is_header_json(header, work, nonce);
    encode_utf8_valid_utf8(header_json(header, nonce));
    assert(block_hash(work, nonce) == keccak256(work.message(nonce)));
}

/// A template can be announced if its parent hash and its target are short or can be cut where
/// they are abbreviated.
pub proof fn law_presentable(template: Template)
    ensures
        is_presentable(template) <==> text::can_abbreviate(template.header.parent_hash@, 12, 8)
            && text::can_abbreviate(template.target@, 18, 8),
        is_ascii_chars(template.header.parent_hash@) && is_ascii_chars(template.target@)
            ==> is_presentable(template),
{
    let parent = template.header.parent_hash@;
    let target = template.target@;
    if is_ascii_chars(parent) && text::byte_len(parent) > 23 {
        is_ascii_chars_encode_utf8(parent);
        text::law_ascii_is_cut_anywhere(parent, 12, parent.len() - 8);
    }
    if is_ascii_chars(target) && text::byte_len(target) > 29 {
        is_ascii_chars_encode_utf8(target);
        text::law_ascii_is_cut_anywhere(target, 18, target.len() - 8);
    }
}

} // verus!
