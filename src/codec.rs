//! The wire text of a payload: the record `{"sender":<literal>,"content":<literal>}`,
//! each field a JSON string literal.
use vstd::prelude::*;
use vstd::std_specs::iter::IteratorSpec;
use crate::payload::{MessagePayload, PayloadView};

verus! {

broadcast use vstd::string::group_string_axioms;

/// The lower-case hexadecimal digit of `n`, for `n < 16`.
pub open spec fn hex_digit(n: u32) -> char {
    seq!['0', '1', '2', '3', '4', '5', '6', '7', '8', '9', 'a', 'b', 'c', 'd', 'e', 'f'][n as int]
}

/// How one character is written inside a JSON string literal.
pub open spec fn escape_char(c: char) -> Seq<char> {
    if c == '"' {
        seq!['\\', '"']
    } else if c == '\\' {
        seq!['\\', '\\']
    } else if c == '\x08' {
        seq!['\\', 'b']
    } else if c == '\t' {
        seq!['\\', 't']
    } else if c == '\n' {
        seq!['\\', 'n']
    } else if c == '\x0c' {
        seq!['\\', 'f']
    } else if c == '\r' {
        seq!['\\', 'r']
    } else if (c as u32) < 0x20 {
        seq!['\\', 'u', '0', '0', hex_digit((c as u32) / 16), hex_digit((c as u32) % 16)]
    } else {
        seq![c]
    }
}

/// The characters of `s`, each escaped.
pub open spec fn escape(s: Seq<char>) -> Seq<char>
    decreases s.len(),
{
    if s.len() == 0 {
        Seq::empty()
    } else {
        escape_char(s[0]) + escape(s.drop_first())
    }
}

/// The JSON string literal of `s`.
pub open spec fn quoted(s: Seq<char>) -> Seq<char> {
    seq!['"'] + escape(s) + seq!['"']
}

/// What `serde_json` reads from a string literal that is not the literal of any text.
pub uninterp spec fn json_string_value(l: Seq<char>) -> Option<Seq<char>>;

/// The text that a string literal stands for, if it is a valid one.
pub open spec fn literal_value(l: Seq<char>) -> Option<Seq<char>> {
    if exists|s: Seq<char>| quoted(s) == l {
        Some(choose|s: Seq<char>| quoted(s) == l)
    } else {
        json_string_value(l)
    }
}

/// Position of the quote that closes a string literal whose body starts at `i`;
/// a backslash always takes the character after it along.
pub open spec fn closing_quote(t: Seq<char>, i: int) -> Option<int>
    decreases t.len() - i,
{
    if i < 0 || i >= t.len() {
        None
    } else if t[i] == '"' {
        Some(i)
    } else if t[i] == '\\' {
        if i + 1 < t.len() {
            closing_quote(t, i + 2)
        } else {
            None
        }
    } else {
        closing_quote(t, i + 1)
    }
}

proof fn lemma_closing_quote_bound(t: Seq<char>, i: int)
    ensures
        closing_quote(t, i) matches Some(e) ==> i <= e < t.len(),
    decreases t.len() - i,
{
    if 0 <= i < t.len() && t[i] != '"' {
        if t[i] == '\\' {
            if i + 1 < t.len() {
                lemma_closing_quote_bound(t, i + 2);
            }
        } else {
            lemma_closing_quote_bound(t, i + 1);
        }
    }
}

pub open spec fn sender_tag() -> Seq<char> {
    seq!['{', '"', 's', 'e', 'n', 'd', 'e', 'r', '"', ':']
}

pub open spec fn content_tag() -> Seq<char> {
    seq![',', '"', 'c', 'o', 'n', 't', 'e', 'n', 't', '"', ':']
}

/// The wire text of a payload.
pub open spec fn encode_spec(p: PayloadView) -> Seq<char> {
    sender_tag() + quoted(p.sender) + content_tag() + quoted(p.content) + seq!['}']
}

/// The two string literals of `t`, when `t` is a record `{"sender":<a>,"content":<b>}`.
pub open spec fn record_literals(t: Seq<char>) -> Option<(Seq<char>, Seq<char>)> {
    let a = sender_tag().len() as int;
    if t.len() > a && t.subrange(0, a) == sender_tag() && t[a] == '"' {
        match closing_quote(t, a + 1) {
            Some(e1) => {
                let b = e1 + 1 + content_tag().len();
                if b < t.len() && t.subrange(e1 + 1, b) == content_tag() && t[b] == '"' {
                    match closing_quote(t, b + 1) {
                        Some(e2) => {
                            if e2 + 2 == t.len() && t[e2 + 1] == '}' {
                                Some((t.subrange(a, e1 + 1), t.subrange(b, e2 + 1)))
                            } else {
                                None
                            }
                        },
                        None => None,
                    }
                } else {
                    None
                }
            },
            None => None,
        }
    } else {
        None
    }
}

/// The payload that the wire text `t` carries, if it carries one.
pub open spec fn decode_spec(t: Seq<char>) -> Option<PayloadView> {
    match record_literals(t) {
        Some((l1, l2)) => match (literal_value(l1), literal_value(l2)) {
            (Some(s), Some(c)) => Some(PayloadView { sender: s, content: c }),
            _ => None,
        },
        None => None,
    }
}

proof fn lemma_hex_digit(n: u32)
    requires
        n < 16,
    ensures
        hex_digit(n) != '"',
        hex_digit(n) != '\\',
        forall|m: u32| m < 16 && hex_digit(m) == hex_digit(n) ==> m == n,
{
    let d = seq!['0', '1', '2', '3', '4', '5', '6', '7', '8', '9', 'a', 'b', 'c', 'd', 'e', 'f'];
    assert(d[0] == '0' && d[1] == '1' && d[2] == '2' && d[3] == '3' && d[4] == '4' && d[5] == '5'
        && d[6] == '6' && d[7] == '7' && d[8] == '8' && d[9] == '9' && d[10] == 'a' && d[11] == 'b'
        && d[12] == 'c' && d[13] == 'd' && d[14] == 'e' && d[15] == 'f');
}

proof fn lemma_escape_char_shape(c: char)
    ensures
        escape_char(c).len() >= 1,
        escape_char(c)[0] != '\\' ==> escape_char(c) == seq![c] && c != '"' && c != '\\',
        escape_char(c)[0] == '\\' ==> escape_char(c).len() >= 2,
{
}

/// Scanning over an escaped text never stops inside it.
proof fn lemma_scan_escape(t: Seq<char>, i: int, s: Seq<char>)
    requires
        0 <= i,
        i + escape(s).len() <= t.len(),
        t.subrange(i, i + escape(s).len()) == escape(s),
    ensures
        closing_quote(t, i) == closing_quote(t, i + escape(s).len()),
    decreases s.len(),
{
    if s.len() > 0 {
        let c = s[0];
        let ec = escape_char(c);
        let rest = s.drop_first();
        assert(escape(s) == ec + escape(rest));
        let n = ec.len() as int;
        assert forall|j: int| 0 <= j < n implies t[i + j] == ec[j] by {
            assert(t.subrange(i, i + escape(s).len())[j] == escape(s)[j]);
        }
        assert(t.subrange(i + n, i + n + escape(rest).len()) =~= escape(rest)) by {
            assert forall|j: int| 0 <= j < escape(rest).len() implies t[i + n + j] == escape(
                rest,
            )[j] by {
                assert(t.subrange(i, i + escape(s).len())[n + j] == escape(s)[n + j]);
            }
        }
        lemma_scan_escape(t, i + n, rest);
        lemma_escape_char_shape(c);
        if ec[0] == '\\' {
            if (c as u32) < 0x20 && c != '\x08' && c != '\t' && c != '\n' && c != '\x0c' && c
                != '\r' {
                lemma_hex_digit((c as u32) / 16);
                lemma_hex_digit((c as u32) % 16);
                assert(closing_quote(t, i + 5) == closing_quote(t, i + 6));
                assert(closing_quote(t, i + 4) == closing_quote(t, i + 5));
                assert(closing_quote(t, i + 3) == closing_quote(t, i + 4));
                assert(closing_quote(t, i + 2) == closing_quote(t, i + 3));
            }
        }
    }
}

/// No escaped character's text is a prefix that tells it apart from another's.
proof fn lemma_escape_char_prefix(c: char, d: char, x: Seq<char>, y: Seq<char>)
    requires
        escape_char(c) + x == escape_char(d) + y,
    ensures
        c == d,
        x == y,
{
    let ec = escape_char(c);
    let ed = escape_char(d);
    let u = ec + x;
    lemma_escape_char_shape(c);
    lemma_escape_char_shape(d);
    assert(u[0] == ec[0] && u[0] == ed[0]);
    if ec[0] == '\\' {
        assert(u[1] == ec[1] && u[1] == ed[1]);
        if ec[1] == 'u' {
            assert(u[4] == ec[4] && u[4] == ed[4]);
            assert(u[5] == ec[5] && u[5] == ed[5]);
            lemma_hex_digit((c as u32) / 16);
            lemma_hex_digit((c as u32) % 16);
            lemma_hex_digit((d as u32) / 16);
            lemma_hex_digit((d as u32) % 16);
            assert((c as u32) == (d as u32));
        }
    }
    assert(ec == ed);
    assert(x =~= u.subrange(ec.len() as int, u.len() as int));
    assert(y =~= (ed + y).subrange(ed.len() as int, u.len() as int));
}

proof fn lemma_escape_injective(a: Seq<char>, b: Seq<char>)
    requires
        escape(a) == escape(b),
    ensures
        a == b,
    decreases a.len(),
{
    if a.len() == 0 {
        if b.len() > 0 {
            lemma_escape_char_shape(b[0]);
        }
        assert(b.len() == 0);
        assert(a =~= b);
    } else {
        lemma_escape_char_shape(a[0]);
        if b.len() == 0 {
            assert(escape(a).len() > 0);
        }
        lemma_escape_char_prefix(a[0], b[0], escape(a.drop_first()), escape(b.drop_first()));
        lemma_escape_injective(a.drop_first(), b.drop_first());
        assert(a =~= seq![a[0]] + a.drop_first());
        assert(b =~= seq![b[0]] + b.drop_first());
    }
}

/// The literal of a text stands for that text.
pub proof fn lemma_literal_value_quoted(s: Seq<char>)
    ensures
        literal_value(quoted(s)) == Some(s),
{
    let l = quoted(s);
    assert(exists|x: Seq<char>| quoted(x) == l);
    let x = choose|x: Seq<char>| quoted(x) == l;
    assert(escape(x) =~= quoted(x).subrange(1, quoted(x).len() - 1));
    assert(escape(s) =~= quoted(s).subrange(1, quoted(s).len() - 1));
    lemma_escape_injective(x, s);
}

proof fn lemma_record_literals_encode(p: PayloadView)
    ensures
        record_literals(encode_spec(p)) == Some((quoted(p.sender), quoted(p.content))),
{
    let t = encode_spec(p);
    let qs = quoted(p.sender);
    let qc = quoted(p.content);
    let es = escape(p.sender);
    let ec = escape(p.content);
    let a = sender_tag().len() as int;
    let e1 = a + 1 + es.len();
    let b = e1 + 1 + content_tag().len();
    let e2 = b + 1 + ec.len();
    assert(t =~= sender_tag() + seq!['"'] + es + seq!['"'] + content_tag() + seq!['"'] + ec
        + seq!['"'] + seq!['}']);
    assert(t.len() == e2 + 2);
    assert(t.subrange(0, a) =~= sender_tag());
    assert(t.subrange(a + 1, e1) =~= es);
    lemma_scan_escape(t, a + 1, p.sender);
    assert(t.subrange(e1 + 1, b) =~= content_tag());
    assert(t.subrange(b + 1, e2) =~= ec);
    lemma_scan_escape(t, b + 1, p.content);
    assert(t.subrange(a, e1 + 1) =~= qs);
    assert(t.subrange(b, e2 + 1) =~= qc);
}

/// Decoding the wire text of a payload gives that payload back.
pub proof fn lemma_round_trip(p: PayloadView)
    ensures
        decode_spec(encode_spec(p)) == Some(p),
{
    lemma_record_literals_encode(p);
    lemma_literal_value_quoted(p.sender);
    lemma_literal_value_quoted(p.content);
}

pub open spec fn opt_view(r: Option<String>) -> Option<Seq<char>> {
    match r {
        Some(s) => Some(s@),
        None => None,
    }
}

/// Relies on `serde_json::to_string` for a `str`: the string is written between quotes,
/// with `"` and `\` and the characters below U+0020 escaped, as in its `ESCAPE` table.
#[verifier::external_body]
fn json_literal(s: &str) -> (r: String)
    ensures
        r@ == quoted(s@),
{
    match serde_json::to_string(s) {
        Ok(t) => t,
        Err(_) => String::new(),
    }
}

/// Relies on `serde_json::from_str::<String>`: it reads a JSON string literal back,
/// and the literal that it writes for a text reads back as that text.
#[verifier::external_body]
fn json_literal_value(t: &str) -> (r: Option<String>)
    ensures
        (exists|s: Seq<char>| quoted(s) == t@) ==> opt_view(r) == Some(
            choose|s: Seq<char>| quoted(s) == t@,
        ),
        !(exists|s: Seq<char>| quoted(s) == t@) ==> opt_view(r) == json_string_value(t@),
{
    match serde_json::from_str::<String>(t) {
        Ok(v) => Some(v),
        Err(_) => None,
    }
}

/// Relies on `String`'s `FromIterator<char>`: the characters in order.
#[verifier::external_body]
pub(crate) fn string_of_chars(v: Vec<char>) -> (r: String)
    ensures
        r@ == v@,
{
    v.into_iter().collect()
}

/// The characters of `s`, in order.
pub fn chars_of(s: &str) -> (r: Vec<char>)
    ensures
        r@ == s@,
{
    let mut r: Vec<char> = Vec::new();
    for c in it: s.chars()
        invariant
            it.seq() == s@,
            r@ == s@.take(it.index() as int),
    {
        r.push(c);
    }
    assert(r@ == s@);
    r
}

/// The text made of `t[from..to]`.
fn string_of_range(t: &Vec<char>, from: usize, to: usize) -> (r: String)
    requires
        from <= to <= t.len(),
    ensures
        r@ == t@.subrange(from as int, to as int),
{
    let mut v: Vec<char> = Vec::new();
    let mut i: usize = from;
    while i < to
        invariant
            from <= i <= to <= t.len(),
            v@ == t@.subrange(from as int, i as int),
        decreases to - i,
    {
        v.push(t[i]);
        i = i + 1;
    }
    string_of_chars(v)
}

/// Whether `tag` stands in `t` from position `i` on.
fn tag_at(t: &Vec<char>, i: usize, tag: &Vec<char>) -> (r: bool)
    ensures
        r == (i + tag@.len() <= t@.len() && t@.subrange(i as int, i + tag@.len()) == tag@),
{
    if i > t.len() || tag.len() > t.len() - i {
        return false;
    }
    let mut k: usize = 0;
    while k < tag.len()
        invariant
            i + tag.len() <= t.len(),
            k <= tag.len(),
            forall|j: int| 0 <= j < k ==> t@[i + j] == tag@[j],
        decreases tag.len() - k,
    {
        if t[i + k] != tag[k] {
            assert(t@.subrange(i as int, i + tag@.len())[k as int] != tag@[k as int]);
            return false;
        }
        k = k + 1;
    }
    assert(t@.subrange(i as int, i + tag@.len()) =~= tag@);
    true
}

/// Position of the quote that closes the string literal whose body starts at `i`.
fn literal_end(t: &Vec<char>, i: usize) -> (r: Option<usize>)
    ensures
        match r {
            Some(e) => e < t.len() && closing_quote(t@, i as int) == Some(e as int),
            None => closing_quote(t@, i as int) is None,
        },
{
    proof {
        lemma_closing_quote_bound(t@, i as int);
    }
    let mut k: usize = i;
    while k < t.len()
        invariant
            i <= k,
            closing_quote(t@, i as int) == closing_quote(t@, k as int),
        decreases t.len() - k,
    {
        if t[k] == '"' {
            return Some(k);
        } else if t[k] == '\\' {
            if k + 1 < t.len() {
                k = k + 2;
            } else {
                return None;
            }
        } else {
            k = k + 1;
        }
    }
    None
}

fn sender_tag_chars() -> (r: Vec<char>)
    ensures
        r@ == sender_tag(),
{
    proof {
        reveal_strlit("{\"sender\":");
    }
    let r = chars_of("{\"sender\":");
    assert(r@ =~= sender_tag());
    r
}

fn content_tag_chars() -> (r: Vec<char>)
    ensures
        r@ == content_tag(),
{
    proof {
        reveal_strlit(",\"content\":");
    }
    let r = chars_of(",\"content\":");
    assert(r@ =~= content_tag());
    r
}

impl MessagePayload {
    /// The wire text of this payload.
    pub fn serialize(&self) -> (r: String)
        ensures
            r@ == encode_spec(self@),
            decode_spec(r@) == Some(self@),
    {
        proof {
            lemma_round_trip(self@);
        }
        let mut out = sender_tag_chars();
        let mut sender = chars_of(json_literal(self.sender.as_str()).as_str());
        out.append(&mut sender);
        let mut tag = content_tag_chars();
        out.append(&mut tag);
        let mut content = chars_of(json_literal(self.content.as_str()).as_str());
        out.append(&mut content);
        out.push('}');
        assert(out@ =~= encode_spec(self@));
        string_of_chars(out)
    }

    /// The payload carried by the wire text `text`; `None` when it is malformed.
    pub fn deserialize(text: &str) -> (r: Option<MessagePayload>)
        ensures
            match r {
                Some(p) => decode_spec(text@) == Some(p@),
                None => decode_spec(text@) is None,
            },
    {
        let t = chars_of(text);
        let ghost tv = t@;
        let stag = sender_tag_chars();
        let a: usize = stag.len();
        if !(t.len() > a && tag_at(&t, 0, &stag) && t[a] == '"') {
            return None;
        }
        let e1 = match literal_end(&t, a + 1) {
            Some(e) => e,
            None => return None,
        };
        let ctag = content_tag_chars();
        if e1 + 1 > t.len() || ctag.len() >= t.len() - (e1 + 1) {
            return None;
        }
        let b: usize = e1 + 1 + ctag.len();
        if !(tag_at(&t, e1 + 1, &ctag) && t[b] == '"') {
            return None;
        }
        let e2 = match literal_end(&t, b + 1) {
            Some(e) => e,
            None => return None,
        };
        if !(e2 + 1 == t.len() - 1 && t[e2 + 1] == '}') {
            return None;
        }
        let l1 = string_of_range(&t, a, e1 + 1);
        let l2 = string_of_range(&t, b, e2 + 1);
        assert(record_literals(tv) == Some((l1@, l2@)));
        let sender = match json_literal_value(l1.as_str()) {
            Some(s) => s,
            None => return None,
        };
        let content = match json_literal_value(l2.as_str()) {
            Some(c) => c,
            None => return None,
        };
        Some(MessagePayload::new(sender, content))
    }
}

} // verus!
