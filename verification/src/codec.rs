//! Wire codec for the signaling envelope.
//!
//! Every message travels as one JSON object with a `"type"` field naming
//! the message kind, followed by the kind's fields in a fixed order, all
//! string-valued. The encoder produces exactly this canonical form;
//! the decoder accepts exactly the canonical form and nothing else, so
//! decoding is a two-sided inverse of encoding: `decode(encode(m))`
//! recovers `m`, and any input that is not an encoding is rejected
//! (and, per the error-handling policy, dropped by the caller).
//!
//! Fixing one canonical form on both ends is a deliberate restriction
//! of the wire grammar: a text that says the same thing another way —
//! reordered fields, extra whitespace, unknown fields, or an escape
//! written differently — counts as malformed and is dropped. That is
//! what makes the exact two-sided contracts below possible, and every
//! canonical text is ordinary JSON, so lenient readers elsewhere still
//! accept what this codec writes.
//!
//! String values are escaped as JSON requires: `"` and `\` get a
//! backslash, newline, carriage return and tab get their named escapes,
//! and every other control character becomes `\u00XX` with lowercase
//! hex digits.

use vstd::prelude::*;
use vstd::std_specs::iter::IteratorSpec;

use crate::messages::ClientAnswer;
use crate::messages::ClientMessage;
use crate::messages::ClientOffer;
use crate::messages::ID;
use crate::messages::ServerAnswer;
use crate::messages::ServerMessage;
use crate::messages::ServerOffer;

verus! {

broadcast use vstd::string::group_string_axioms;

// ---------------------------------------------------------------------
// Escaping, at the specification level
// ---------------------------------------------------------------------

/// Control characters are the code points below 0x20.
pub open spec fn is_ctl(c: char) -> bool {
    (c as u32) < 0x20
}

/// The sixteen lowercase hexadecimal digit characters, in value order.
pub open spec fn hex_digit(n: int) -> char {
    seq!['0', '1', '2', '3', '4', '5', '6', '7', '8', '9', 'a', 'b', 'c', 'd', 'e', 'f'][n]
}

/// The value of a lowercase hexadecimal digit character.
pub open spec fn hex_val(c: char) -> int {
    if c == '0' {
        0
    } else if c == '1' {
        1
    } else if c == '2' {
        2
    } else if c == '3' {
        3
    } else if c == '4' {
        4
    } else if c == '5' {
        5
    } else if c == '6' {
        6
    } else if c == '7' {
        7
    } else if c == '8' {
        8
    } else if c == '9' {
        9
    } else if c == 'a' {
        10
    } else if c == 'b' {
        11
    } else if c == 'c' {
        12
    } else if c == 'd' {
        13
    } else if c == 'e' {
        14
    } else if c == 'f' {
        15
    } else {
        -1
    }
}

pub open spec fn is_hex_lo(c: char) -> bool {
    0 <= hex_val(c)
}

/// How one character appears inside a JSON string value.
pub open spec fn esc_char(c: char) -> Seq<char> {
    if c == '"' {
        seq!['\\', '"']
    } else if c == '\\' {
        seq!['\\', '\\']
    } else if c == '\n' {
        seq!['\\', 'n']
    } else if c == '\r' {
        seq!['\\', 'r']
    } else if c == '\t' {
        seq!['\\', 't']
    } else if is_ctl(c) {
        seq![
            '\\',
            'u',
            '0',
            '0',
            hex_digit(((c as u32) as int) / 16),
            hex_digit(((c as u32) as int) % 16),
        ]
    } else {
        seq![c]
    }
}

/// How a whole string value appears inside a JSON string: each character
/// escaped, in order.
pub open spec fn escape(s: Seq<char>) -> Seq<char>
    decreases s.len(),
{
    if s.len() == 0 {
        Seq::empty()
    } else {
        esc_char(s[0]) + escape(s.skip(1))
    }
}

proof fn lemma_escape_concat(a: Seq<char>, b: Seq<char>)
    ensures
        escape(a + b) == escape(a) + escape(b),
    decreases a.len(),
{
    if a.len() == 0 {
        assert(a + b =~= b);
        assert(escape(a) + escape(b) =~= escape(b));
    } else {
        assert((a + b).skip(1) =~= a.skip(1) + b);
        lemma_escape_concat(a.skip(1), b);
        assert(esc_char((a + b)[0]) + (escape(a.skip(1)) + escape(b)) =~= (esc_char(a[0]) + escape(
            a.skip(1),
        )) + escape(b));
    }
}

// ---------------------------------------------------------------------
// The canonical envelope shape
// ---------------------------------------------------------------------

/// A key literal, then an escaped string value, then the closing quote,
/// then the rest of the object. Every envelope is nested out of this
/// pattern, which is also exactly what the field parser consumes.
pub open spec fn field_pat(key: Seq<char>, val: Seq<char>, rest: Seq<char>) -> Seq<char> {
    key + escape(val) + seq!['"'] + rest
}

/// `{"type":"` — every envelope starts with this.
pub open spec fn lit_type() -> Seq<char> {
    seq!['{', '"', 't', 'y', 'p', 'e', '"', ':', '"']
}

/// `,"to":"`
pub open spec fn lit_to() -> Seq<char> {
    seq![',', '"', 't', 'o', '"', ':', '"']
}

/// `,"from":"`
pub open spec fn lit_from() -> Seq<char> {
    seq![',', '"', 'f', 'r', 'o', 'm', '"', ':', '"']
}

/// `,"sdp":"`
pub open spec fn lit_sdp() -> Seq<char> {
    seq![',', '"', 's', 'd', 'p', '"', ':', '"']
}

/// `,"id":"`
pub open spec fn lit_id() -> Seq<char> {
    seq![',', '"', 'i', 'd', '"', ':', '"']
}

/// `}`
pub open spec fn lit_end() -> Seq<char> {
    seq!['}']
}

pub open spec fn tag_offer() -> Seq<char> {
    seq!['O', 'f', 'f', 'e', 'r']
}

pub open spec fn tag_answer() -> Seq<char> {
    seq!['A', 'n', 's', 'w', 'e', 'r']
}

pub open spec fn tag_getmyid() -> Seq<char> {
    seq!['G', 'e', 't', 'M', 'y', 'I', 'D']
}

pub open spec fn tag_id() -> Seq<char> {
    seq!['I', 'D']
}

/// The envelope of a client offer, over field views.
pub open spec fn enc_client_offer(to: Seq<char>, sdp: Seq<char>) -> Seq<char> {
    field_pat(lit_type(), tag_offer(), field_pat(lit_to(), to, field_pat(lit_sdp(), sdp, lit_end())))
}

/// The envelope of a client answer, over field views.
pub open spec fn enc_client_answer(to: Seq<char>, sdp: Seq<char>) -> Seq<char> {
    field_pat(lit_type(), tag_answer(), field_pat(lit_to(), to, field_pat(lit_sdp(), sdp, lit_end())))
}

/// The envelope of an identity query.
pub open spec fn enc_get_my_id() -> Seq<char> {
    field_pat(lit_type(), tag_getmyid(), lit_end())
}

/// The envelope of a forwarded offer, over field views.
pub open spec fn enc_server_offer(from: Seq<char>, to: Seq<char>, sdp: Seq<char>) -> Seq<char> {
    field_pat(
        lit_type(),
        tag_offer(),
        field_pat(lit_from(), from, field_pat(lit_to(), to, field_pat(lit_sdp(), sdp, lit_end()))),
    )
}

/// The envelope of a forwarded answer, over field views.
pub open spec fn enc_server_answer(from: Seq<char>, to: Seq<char>, sdp: Seq<char>) -> Seq<char> {
    field_pat(
        lit_type(),
        tag_answer(),
        field_pat(lit_from(), from, field_pat(lit_to(), to, field_pat(lit_sdp(), sdp, lit_end()))),
    )
}

/// The envelope of an identity reply, over the identifier view.
pub open spec fn enc_server_id(id: Seq<char>) -> Seq<char> {
    field_pat(lit_type(), tag_id(), field_pat(lit_id(), id, lit_end()))
}

/// The canonical encoding of a client-to-relay message.
pub open spec fn encode_client(m: ClientMessage) -> Seq<char> {
    match m {
        ClientMessage::Answer(a) => enc_client_answer(a.to@, a.sdp@),
        ClientMessage::Offer(o) => enc_client_offer(o.to@, o.sdp@),
        ClientMessage::GetMyID => enc_get_my_id(),
    }
}

/// The canonical encoding of a relay-to-client message.
pub open spec fn encode_server(m: ServerMessage) -> Seq<char> {
    match m {
        ServerMessage::Answer(a) => enc_server_answer(a.from@, a.to@, a.sdp@),
        ServerMessage::Offer(o) => enc_server_offer(o.from@, o.to@, o.sdp@),
        ServerMessage::ID(i) => enc_server_id(i.id@),
    }
}

// ---------------------------------------------------------------------
// The specification-level string-value parser
// ---------------------------------------------------------------------

/// Reads an escaped string value up to and including its closing quote.
/// Returns the unescaped value and whatever follows the quote, or `None`
/// when the input is not `escape(w) + '"' + rest` for any `w`, `rest`.
pub open spec fn sparse_jstr(s: Seq<char>) -> Option<(Seq<char>, Seq<char>)>
    decreases s.len(),
{
    if s.len() == 0 {
        None
    } else if s[0] == '"' {
        Some((Seq::empty(), s.skip(1)))
    } else if s[0] == '\\' {
        if s.len() < 2 {
            None
        } else {
            let e = s[1];
            if e == '"' || e == '\\' || e == 'n' || e == 'r' || e == 't' {
                let c = if e == 'n' {
                    '\n'
                } else if e == 'r' {
                    '\r'
                } else if e == 't' {
                    '\t'
                } else {
                    e
                };
                match sparse_jstr(s.skip(2)) {
                    Some((w, r)) => Some((seq![c] + w, r)),
                    None => None,
                }
            } else if e == 'u' {
                if s.len() < 6 {
                    None
                } else if s[2] == '0' && s[3] == '0' && is_hex_lo(s[4]) && is_hex_lo(s[5]) {
                    let n = hex_val(s[4]) * 16 + hex_val(s[5]);
                    if n < 0x20 && n != 0x09 && n != 0x0a && n != 0x0d {
                        match sparse_jstr(s.skip(6)) {
                            Some((w, r)) => Some((seq![n as char] + w, r)),
                            None => None,
                        }
                    } else {
                        None
                    }
                } else {
                    None
                }
            } else {
                None
            }
        }
    } else if is_ctl(s[0]) {
        None
    } else {
        match sparse_jstr(s.skip(1)) {
            Some((w, r)) => Some((seq![s[0]] + w, r)),
            None => None,
        }
    }
}

/// Parsing an escaped value finds exactly the value that was escaped.
pub proof fn lemma_sparse_of_escape(w: Seq<char>, rest: Seq<char>)
    ensures
        sparse_jstr(escape(w) + seq!['"'] + rest) == Some((w, rest)),
    decreases w.len(),
{
    let s = escape(w) + seq!['"'] + rest;
    if w.len() == 0 {
        assert(s =~= seq!['"'] + rest);
        assert(s.skip(1) =~= rest);
        assert(w =~= Seq::<char>::empty());
    } else {
        let c = w[0];
        lemma_sparse_of_escape(w.skip(1), rest);
        let s1 = escape(w.skip(1)) + seq!['"'] + rest;
        assert(s =~= esc_char(c) + s1);
        if c == '"' || c == '\\' {
            assert(s[0] == '\\' && s[1] == c);
            assert(s.skip(2) =~= s1);
            assert(seq![c] + w.skip(1) =~= w);
        } else if c == '\n' {
            assert(s[0] == '\\' && s[1] == 'n');
            assert(s.skip(2) =~= s1);
            assert(seq![c] + w.skip(1) =~= w);
        } else if c == '\r' {
            assert(s[0] == '\\' && s[1] == 'r');
            assert(s.skip(2) =~= s1);
            assert(seq![c] + w.skip(1) =~= w);
        } else if c == '\t' {
            assert(s[0] == '\\' && s[1] == 't');
            assert(s.skip(2) =~= s1);
            assert(seq![c] + w.skip(1) =~= w);
        } else if is_ctl(c) {
            let n = (c as u32) as int;
            assert(s[0] == '\\' && s[1] == 'u' && s[2] == '0' && s[3] == '0');
            assert(s[4] == hex_digit(n / 16) && s[5] == hex_digit(n % 16));
            lemma_hex_digit_val(n / 16);
            lemma_hex_digit_val(n % 16);
            assert(hex_val(s[4]) * 16 + hex_val(s[5]) == n);
            lemma_ctl_code(c);
            assert(s.skip(6) =~= s1);
            assert(seq![c] + w.skip(1) =~= w);
        } else {
            assert(s[0] == c);
            assert(c != '"' && c != '\\' && !is_ctl(c));
            assert(s.skip(1) =~= s1);
            assert(seq![c] + w.skip(1) =~= w);
        }
    }
}

/// The code of a control character other than the three with named
/// escapes, read back as a character.
proof fn lemma_ctl_code(c: char)
    requires
        is_ctl(c),
        c != '\n',
        c != '\r',
        c != '\t',
    ensures
        ({
            let n = (c as u32) as int;
            0 <= n < 0x20 && n != 0x09 && n != 0x0a && n != 0x0d && (n as char) == c
        }),
{
}

/// A hexadecimal digit character reads back as its value.
proof fn lemma_hex_digit_val(n: int)
    requires
        0 <= n < 16,
    ensures
        is_hex_lo(hex_digit(n)),
        hex_val(hex_digit(n)) == n,
{
}

/// Whatever the string-value parser accepts is the escape of what it
/// returns, followed by the closing quote and the returned rest.
pub proof fn lemma_sparse_sound(s: Seq<char>)
    ensures
        sparse_jstr(s) matches Some((w, rest)) ==> s == escape(w) + seq!['"'] + rest,
    decreases s.len(),
{
    if sparse_jstr(s) is Some {
        let (w, rest) = sparse_jstr(s)->Some_0;
        if s[0] == '"' {
            assert(s =~= escape(Seq::<char>::empty()) + seq!['"'] + s.skip(1));
        } else if s[0] == '\\' {
            let e = s[1];
            if e == '"' || e == '\\' || e == 'n' || e == 'r' || e == 't' {
                let c = if e == 'n' {
                    '\n'
                } else if e == 'r' {
                    '\r'
                } else if e == 't' {
                    '\t'
                } else {
                    e
                };
                lemma_sparse_sound(s.skip(2));
                let (w1, r1) = sparse_jstr(s.skip(2))->Some_0;
                assert(esc_char(c) =~= seq!['\\', e]);
                assert(escape(seq![c] + w1) == esc_char(c) + escape(w1)) by {
                    assert((seq![c] + w1)[0] == c);
                    assert((seq![c] + w1).skip(1) =~= w1);
                }
                assert(s =~= seq!['\\', e] + s.skip(2));
                assert(s =~= escape(seq![c] + w1) + seq!['"'] + r1);
            } else {
                // e == 'u'
                let n = hex_val(s[4]) * 16 + hex_val(s[5]);
                let c = n as char;
                lemma_sparse_sound(s.skip(6));
                let (w1, r1) = sparse_jstr(s.skip(6))->Some_0;
                assert((c as u32) as int == n);
                assert(is_ctl(c));
                assert(c != '"' && c != '\\' && c != '\n' && c != '\r' && c != '\t');
                lemma_hex_val_digit(s[4]);
                lemma_hex_val_digit(s[5]);
                assert(hex_digit(n / 16) == s[4] && hex_digit(n % 16) == s[5]) by {
                    assert(n / 16 == hex_val(s[4]) && n % 16 == hex_val(s[5]));
                }
                assert(esc_char(c) =~= seq!['\\', 'u', '0', '0', s[4], s[5]]);
                assert(escape(seq![c] + w1) == esc_char(c) + escape(w1)) by {
                    assert((seq![c] + w1)[0] == c);
                    assert((seq![c] + w1).skip(1) =~= w1);
                }
                assert(s =~= seq!['\\', 'u', '0', '0', s[4], s[5]] + s.skip(6));
                assert(s =~= escape(seq![c] + w1) + seq!['"'] + r1);
            }
        } else {
            let c = s[0];
            lemma_sparse_sound(s.skip(1));
            let (w1, r1) = sparse_jstr(s.skip(1))->Some_0;
            assert(esc_char(c) =~= seq![c]);
            assert(escape(seq![c] + w1) == esc_char(c) + escape(w1)) by {
                assert((seq![c] + w1)[0] == c);
                assert((seq![c] + w1).skip(1) =~= w1);
            }
            assert(s =~= seq![c] + s.skip(1));
            assert(s =~= escape(seq![c] + w1) + seq!['"'] + r1);
        }
    }
}

/// A hexadecimal digit value writes back as its character.
proof fn lemma_hex_val_digit(c: char)
    requires
        is_hex_lo(c),
    ensures
        hex_val(c) < 16,
        hex_digit(hex_val(c)) == c,
{
}

// ---------------------------------------------------------------------
// Unambiguity of the envelope shape
// ---------------------------------------------------------------------

/// One key cannot be followed by two different value/rest splits.
pub proof fn lemma_field_pat_unambiguous(
    key: Seq<char>,
    f1: Seq<char>,
    r1: Seq<char>,
    f2: Seq<char>,
    r2: Seq<char>,
)
    requires
        field_pat(key, f1, r1) == field_pat(key, f2, r2),
    ensures
        f1 == f2,
        r1 == r2,
{
    let s = field_pat(key, f1, r1);
    assert(s.skip(key.len() as int) =~= escape(f1) + seq!['"'] + r1);
    assert(s.skip(key.len() as int) =~= escape(f2) + seq!['"'] + r2);
    lemma_sparse_of_escape(f1, r1);
    lemma_sparse_of_escape(f2, r2);
}

/// One offer envelope cannot carry two different field pairs.
pub proof fn lemma_enc_client_offer_unamb(t1: Seq<char>, s1: Seq<char>, t2: Seq<char>, s2: Seq<char>)
    requires
        enc_client_offer(t1, s1) == enc_client_offer(t2, s2),
    ensures
        t1 == t2,
        s1 == s2,
{
    lemma_field_pat_unambiguous(
        lit_type(),
        tag_offer(),
        field_pat(lit_to(), t1, field_pat(lit_sdp(), s1, lit_end())),
        tag_offer(),
        field_pat(lit_to(), t2, field_pat(lit_sdp(), s2, lit_end())),
    );
    lemma_field_pat_unambiguous(
        lit_to(),
        t1,
        field_pat(lit_sdp(), s1, lit_end()),
        t2,
        field_pat(lit_sdp(), s2, lit_end()),
    );
    lemma_field_pat_unambiguous(lit_sdp(), s1, lit_end(), s2, lit_end());
}

/// One answer envelope cannot carry two different field pairs.
pub proof fn lemma_enc_client_answer_unamb(
    t1: Seq<char>,
    s1: Seq<char>,
    t2: Seq<char>,
    s2: Seq<char>,
)
    requires
        enc_client_answer(t1, s1) == enc_client_answer(t2, s2),
    ensures
        t1 == t2,
        s1 == s2,
{
    lemma_field_pat_unambiguous(
        lit_type(),
        tag_answer(),
        field_pat(lit_to(), t1, field_pat(lit_sdp(), s1, lit_end())),
        tag_answer(),
        field_pat(lit_to(), t2, field_pat(lit_sdp(), s2, lit_end())),
    );
    lemma_field_pat_unambiguous(
        lit_to(),
        t1,
        field_pat(lit_sdp(), s1, lit_end()),
        t2,
        field_pat(lit_sdp(), s2, lit_end()),
    );
    lemma_field_pat_unambiguous(lit_sdp(), s1, lit_end(), s2, lit_end());
}

/// The three client envelope kinds never coincide.
pub proof fn lemma_enc_client_kinds(t1: Seq<char>, s1: Seq<char>, t2: Seq<char>, s2: Seq<char>)
    ensures
        enc_client_offer(t1, s1) != enc_client_answer(t2, s2),
        enc_client_offer(t1, s1) != enc_get_my_id(),
        enc_client_answer(t1, s1) != enc_get_my_id(),
{
    lemma_tag_lens();
    if enc_client_offer(t1, s1) == enc_client_answer(t2, s2) {
        lemma_field_pat_unambiguous(
            lit_type(),
            tag_offer(),
            field_pat(lit_to(), t1, field_pat(lit_sdp(), s1, lit_end())),
            tag_answer(),
            field_pat(lit_to(), t2, field_pat(lit_sdp(), s2, lit_end())),
        );
    }
    if enc_client_offer(t1, s1) == enc_get_my_id() {
        lemma_field_pat_unambiguous(
            lit_type(),
            tag_offer(),
            field_pat(lit_to(), t1, field_pat(lit_sdp(), s1, lit_end())),
            tag_getmyid(),
            lit_end(),
        );
    }
    if enc_client_answer(t1, s1) == enc_get_my_id() {
        lemma_field_pat_unambiguous(
            lit_type(),
            tag_answer(),
            field_pat(lit_to(), t1, field_pat(lit_sdp(), s1, lit_end())),
            tag_getmyid(),
            lit_end(),
        );
    }
}

/// One forwarded-offer envelope cannot carry two different field triples.
pub proof fn lemma_enc_server_offer_unamb(
    f1: Seq<char>,
    t1: Seq<char>,
    s1: Seq<char>,
    f2: Seq<char>,
    t2: Seq<char>,
    s2: Seq<char>,
)
    requires
        enc_server_offer(f1, t1, s1) == enc_server_offer(f2, t2, s2),
    ensures
        f1 == f2,
        t1 == t2,
        s1 == s2,
{
    lemma_field_pat_unambiguous(
        lit_type(),
        tag_offer(),
        field_pat(lit_from(), f1, field_pat(lit_to(), t1, field_pat(lit_sdp(), s1, lit_end()))),
        tag_offer(),
        field_pat(lit_from(), f2, field_pat(lit_to(), t2, field_pat(lit_sdp(), s2, lit_end()))),
    );
    lemma_field_pat_unambiguous(
        lit_from(),
        f1,
        field_pat(lit_to(), t1, field_pat(lit_sdp(), s1, lit_end())),
        f2,
        field_pat(lit_to(), t2, field_pat(lit_sdp(), s2, lit_end())),
    );
    lemma_field_pat_unambiguous(
        lit_to(),
        t1,
        field_pat(lit_sdp(), s1, lit_end()),
        t2,
        field_pat(lit_sdp(), s2, lit_end()),
    );
    lemma_field_pat_unambiguous(lit_sdp(), s1, lit_end(), s2, lit_end());
}

/// One forwarded-answer envelope cannot carry two different field triples.
pub proof fn lemma_enc_server_answer_unamb(
    f1: Seq<char>,
    t1: Seq<char>,
    s1: Seq<char>,
    f2: Seq<char>,
    t2: Seq<char>,
    s2: Seq<char>,
)
    requires
        enc_server_answer(f1, t1, s1) == enc_server_answer(f2, t2, s2),
    ensures
        f1 == f2,
        t1 == t2,
        s1 == s2,
{
    lemma_field_pat_unambiguous(
        lit_type(),
        tag_answer(),
        field_pat(lit_from(), f1, field_pat(lit_to(), t1, field_pat(lit_sdp(), s1, lit_end()))),
        tag_answer(),
        field_pat(lit_from(), f2, field_pat(lit_to(), t2, field_pat(lit_sdp(), s2, lit_end()))),
    );
    lemma_field_pat_unambiguous(
        lit_from(),
        f1,
        field_pat(lit_to(), t1, field_pat(lit_sdp(), s1, lit_end())),
        f2,
        field_pat(lit_to(), t2, field_pat(lit_sdp(), s2, lit_end())),
    );
    lemma_field_pat_unambiguous(
        lit_to(),
        t1,
        field_pat(lit_sdp(), s1, lit_end()),
        t2,
        field_pat(lit_sdp(), s2, lit_end()),
    );
    lemma_field_pat_unambiguous(lit_sdp(), s1, lit_end(), s2, lit_end());
}

/// One identity-reply envelope cannot carry two different identifiers.
pub proof fn lemma_enc_server_id_unamb(i1: Seq<char>, i2: Seq<char>)
    requires
        enc_server_id(i1) == enc_server_id(i2),
    ensures
        i1 == i2,
{
    lemma_field_pat_unambiguous(
        lit_type(),
        tag_id(),
        field_pat(lit_id(), i1, lit_end()),
        tag_id(),
        field_pat(lit_id(), i2, lit_end()),
    );
    lemma_field_pat_unambiguous(lit_id(), i1, lit_end(), i2, lit_end());
}

/// The three relay envelope kinds never coincide.
pub proof fn lemma_enc_server_kinds(
    f1: Seq<char>,
    t1: Seq<char>,
    s1: Seq<char>,
    f2: Seq<char>,
    t2: Seq<char>,
    s2: Seq<char>,
    i: Seq<char>,
)
    ensures
        enc_server_offer(f1, t1, s1) != enc_server_answer(f2, t2, s2),
        enc_server_offer(f1, t1, s1) != enc_server_id(i),
        enc_server_answer(f1, t1, s1) != enc_server_id(i),
{
    lemma_tag_lens();
    if enc_server_offer(f1, t1, s1) == enc_server_answer(f2, t2, s2) {
        lemma_field_pat_unambiguous(
            lit_type(),
            tag_offer(),
            field_pat(lit_from(), f1, field_pat(lit_to(), t1, field_pat(lit_sdp(), s1, lit_end()))),
            tag_answer(),
            field_pat(lit_from(), f2, field_pat(lit_to(), t2, field_pat(lit_sdp(), s2, lit_end()))),
        );
    }
    if enc_server_offer(f1, t1, s1) == enc_server_id(i) {
        lemma_field_pat_unambiguous(
            lit_type(),
            tag_offer(),
            field_pat(lit_from(), f1, field_pat(lit_to(), t1, field_pat(lit_sdp(), s1, lit_end()))),
            tag_id(),
            field_pat(lit_id(), i, lit_end()),
        );
    }
    if enc_server_answer(f1, t1, s1) == enc_server_id(i) {
        lemma_field_pat_unambiguous(
            lit_type(),
            tag_answer(),
            field_pat(lit_from(), f1, field_pat(lit_to(), t1, field_pat(lit_sdp(), s1, lit_end()))),
            tag_id(),
            field_pat(lit_id(), i, lit_end()),
        );
    }
}

/// The string literals the executable codec works with, tied to the
/// sequence forms the specifications are written in.
proof fn lemma_lits()
    ensures
        "{\"type\":\""@ == lit_type(),
        ",\"to\":\""@ == lit_to(),
        ",\"from\":\""@ == lit_from(),
        ",\"sdp\":\""@ == lit_sdp(),
        ",\"id\":\""@ == lit_id(),
        "Offer"@ == tag_offer(),
        "Answer"@ == tag_answer(),
        "GetMyID"@ == tag_getmyid(),
        "ID"@ == tag_id(),
{
    reveal_strlit("{\"type\":\"");
    reveal_strlit(",\"to\":\"");
    reveal_strlit(",\"from\":\"");
    reveal_strlit(",\"sdp\":\"");
    reveal_strlit(",\"id\":\"");
    reveal_strlit("Offer");
    reveal_strlit("Answer");
    reveal_strlit("GetMyID");
    reveal_strlit("ID");
    assert("{\"type\":\""@ =~= lit_type());
    assert(",\"to\":\""@ =~= lit_to());
    assert(",\"from\":\""@ =~= lit_from());
    assert(",\"sdp\":\""@ =~= lit_sdp());
    assert(",\"id\":\""@ =~= lit_id());
    assert("Offer"@ =~= tag_offer());
    assert("Answer"@ =~= tag_answer());
    assert("GetMyID"@ =~= tag_getmyid());
    assert("ID"@ =~= tag_id());
}

// ---------------------------------------------------------------------
// Executable building blocks
// ---------------------------------------------------------------------

/// The characters of a string slice, as a vector.
fn chars_vec(s: &str) -> (v: Vec<char>)
    ensures
        v@ == s@,
{
    let mut it = s.chars();
    let mut v: Vec<char> = Vec::new();
    loop
        invariant
            v@ + it.remaining() == s@,
        ensures
            v@ == s@,
        decreases s@.len() - v@.len(),
    {
        match it.next() {
            Some(c) => {
                v.push(c);
                proof {
                    assert(v@ + it.remaining() =~= s@);
                }
            },
            None => {
                proof {
                    assert(v@ =~= v@ + it.remaining());
                }
                break ;
            },
        }
    }
    v
}

/// Relies on `String`'s `FromIterator<char>` implementation: collecting
/// characters yields the string of exactly those characters, in order.
#[verifier::external_body]
fn string_from_chars(v: Vec<char>) -> (r: String)
    ensures
        r@ == v@,
{
    String::from_iter(v)
}

/// Does `lit` occur in `v` starting at `i`? On success returns the
/// position just past it.
fn match_lit(v: &Vec<char>, i: usize, lit: &str) -> (r: Option<usize>)
    requires
        i <= v@.len(),
    ensures
        r matches Some(j) ==> i <= j <= v@.len() && j - i == lit@.len() && v@.subrange(
            i as int,
            j as int,
        ) == lit@,
        r is None ==> !(i + lit@.len() <= v@.len() && v@.subrange(i as int, i + lit@.len())
            == lit@),
{
    let l = chars_vec(lit);
    if v.len() - i < l.len() {
        return None;
    }
    let mut k: usize = 0;
    while k < l.len()
        invariant
            0 <= k <= l@.len(),
            l@ == lit@,
            i + l@.len() <= v@.len(),
            v@.len() <= usize::MAX,
            forall|t: int| 0 <= t < k ==> v@[i + t] == l@[t],
        decreases l@.len() - k,
    {
        if v[i + k] != l[k] {
            proof {
                assert(v@.subrange(i as int, i + lit@.len())[k as int] == v@[i + k]);
            }
            return None;
        }
        k += 1;
    }
    proof {
        assert(v@.subrange(i as int, i + lit@.len()) =~= lit@);
    }
    Some(i + l.len())
}

/// Do the collected characters equal `lit`?
fn vec_eq_str(w: &Vec<char>, lit: &str) -> (r: bool)
    ensures
        r <==> w@ == lit@,
{
    let l = chars_vec(lit);
    if w.len() != l.len() {
        return false;
    }
    let mut k: usize = 0;
    while k < l.len()
        invariant
            0 <= k <= l@.len(),
            l@ == lit@,
            w@.len() == l@.len(),
            forall|t: int| 0 <= t < k ==> w@[t] == l@[t],
        decreases l@.len() - k,
    {
        if w[k] != l[k] {
            return false;
        }
        k += 1;
    }
    proof {
        assert(w@ =~= lit@);
    }
    true
}

/// The value of a lowercase hexadecimal digit, executably.
fn hex_val_exec(c: char) -> (r: Option<u8>)
    ensures
        r matches Some(n) ==> is_hex_lo(c) && n as int == hex_val(c) && n < 16,
        r is None ==> !is_hex_lo(c),
{
    match c {
        '0' => Some(0),
        '1' => Some(1),
        '2' => Some(2),
        '3' => Some(3),
        '4' => Some(4),
        '5' => Some(5),
        '6' => Some(6),
        '7' => Some(7),
        '8' => Some(8),
        '9' => Some(9),
        'a' => Some(10),
        'b' => Some(11),
        'c' => Some(12),
        'd' => Some(13),
        'e' => Some(14),
        'f' => Some(15),
        _ => None,
    }
}

/// The lowercase hexadecimal digit of a value, executably.
fn hex_digit_exec(n: u32) -> (r: char)
    requires
        n < 16,
    ensures
        r == hex_digit(n as int),
{
    match n {
        0 => '0',
        1 => '1',
        2 => '2',
        3 => '3',
        4 => '4',
        5 => '5',
        6 => '6',
        7 => '7',
        8 => '8',
        9 => '9',
        10 => 'a',
        11 => 'b',
        12 => 'c',
        13 => 'd',
        14 => 'e',
        _ => 'f',
    }
}

/// Glues a parsed prefix onto the outcome of parsing the remainder.
spec fn prepend(w: Seq<char>, o: Option<(Seq<char>, Seq<char>)>) -> Option<
    (Seq<char>, Seq<char>),
> {
    match o {
        Some(p) => Some((w + p.0, p.1)),
        None => None,
    }
}

proof fn lemma_prepend_empty(o: Option<(Seq<char>, Seq<char>)>)
    ensures
        prepend(Seq::<char>::empty(), o) == o,
{
    match o {
        Some(p) => {
            assert(Seq::<char>::empty() + p.0 =~= p.0);
        },
        None => {
        },
    }
}

proof fn lemma_prepend_push(w: Seq<char>, c: char, o: Option<(Seq<char>, Seq<char>)>)
    ensures
        prepend(w, prepend(seq![c], o)) == prepend(w.push(c), o),
{
    match o {
        Some(p) => {
            assert(w + (seq![c] + p.0) =~= w.push(c) + p.0);
        },
        None => {
        },
    }
}

/// Reads an escaped string value from `v` starting at `i`, up to and
/// including its closing quote; refines [`sparse_jstr`] on the tail.
fn parse_jstr(v: &Vec<char>, i: usize) -> (r: Option<(Vec<char>, usize)>)
    requires
        i <= v@.len(),
    ensures
        r matches Some((w, j)) ==> i <= j <= v@.len() && sparse_jstr(v@.skip(i as int)) == Some(
            (w@, v@.skip(j as int)),
        ),
        r is None ==> sparse_jstr(v@.skip(i as int)) is None,
{
    let ghost whole = v@.skip(i as int);
    let vlen = v.len();
    let mut k: usize = i;
    let mut w: Vec<char> = Vec::new();
    proof {
        lemma_prepend_empty(sparse_jstr(v@.skip(i as int)));
    }
    loop
        invariant
            i <= k <= v@.len(),
            v@.len() == vlen,
            whole == v@.skip(i as int),
            sparse_jstr(whole) == prepend(w@, sparse_jstr(v@.skip(k as int))),
        decreases v@.len() - k,
    {
        let ghost tail = v@.skip(k as int);
        if k == vlen {
            proof {
                assert(tail.len() == 0);
            }
            return None;
        }
        let c = v[k];
        proof {
            assert(tail[0] == c);
            assert(tail.len() == v@.len() - k);
        }
        if c == '"' {
            proof {
                assert(tail.skip(1) =~= v@.skip(k + 1));
                assert(sparse_jstr(tail) == Some((Seq::<char>::empty(), v@.skip(k + 1))));
                assert(w@ + Seq::<char>::empty() =~= w@);
            }
            return Some((w, k + 1));
        }
        if c == '\\' {
            if k + 1 == vlen {
                proof {
                    assert(tail.len() < 2);
                }
                return None;
            }
            let e = v[k + 1];
            proof {
                assert(tail[1] == e);
            }
            if e == '"' || e == '\\' || e == 'n' || e == 'r' || e == 't' {
                let u = if e == 'n' {
                    '\n'
                } else if e == 'r' {
                    '\r'
                } else if e == 't' {
                    '\t'
                } else {
                    e
                };
                proof {
                    assert(tail.skip(2) =~= v@.skip(k + 2));
                    assert(sparse_jstr(tail) == prepend(seq![u], sparse_jstr(v@.skip(k + 2))));
                    lemma_prepend_push(w@, u, sparse_jstr(v@.skip(k + 2)));
                }
                w.push(u);
                k += 2;
            } else if e == 'u' {
                if vlen - k < 6 {
                    proof {
                        assert(tail.len() < 6);
                    }
                    return None;
                }
                if !(v[k + 2] == '0' && v[k + 3] == '0') {
                    proof {
                        assert(tail[2] == v@[k + 2] && tail[3] == v@[k + 3]);
                    }
                    return None;
                }
                let h1 = hex_val_exec(v[k + 4]);
                let h2 = hex_val_exec(v[k + 5]);
                proof {
                    assert(tail[4] == v@[k + 4] && tail[5] == v@[k + 5]);
                }
                match (h1, h2) {
                    (Some(a), Some(b)) => {
                        let n: u32 = (a as u32) * 16 + (b as u32);
                        if n < 0x20 && n != 0x09 && n != 0x0a && n != 0x0d {
                            let u = (n as u8) as char;
                            proof {
                                assert(u as u32 == n);
                                assert((n as int) as char == u);
                                assert(tail.skip(6) =~= v@.skip(k + 6));
                                assert(sparse_jstr(tail) == prepend(
                                    seq![u],
                                    sparse_jstr(v@.skip(k + 6)),
                                ));
                                lemma_prepend_push(w@, u, sparse_jstr(v@.skip(k + 6)));
                            }
                            w.push(u);
                            k += 6;
                        } else {
                            return None;
                        }
                    },
                    _ => {
                        return None;
                    },
                }
            } else {
                return None;
            }
        } else if char_is_ctl(c) {
            return None;
        } else {
            proof {
                assert(tail.skip(1) =~= v@.skip(k + 1));
                assert(sparse_jstr(tail) == prepend(seq![c], sparse_jstr(v@.skip(k + 1))));
                lemma_prepend_push(w@, c, sparse_jstr(v@.skip(k + 1)));
            }
            w.push(c);
            k += 1;
        }
    }
}

/// Is `c` a control character?
fn char_is_ctl(c: char) -> (r: bool)
    ensures
        r == is_ctl(c),
{
    (c as u32) < 0x20
}

/// Reads one `key` literal followed by an escaped string value and its
/// closing quote, starting at `i`. On success the tail at `i` is exactly
/// the field pattern for the returned value, and no other value/rest
/// split matches; on failure no split matches at all.
fn parse_field(v: &Vec<char>, i: usize, key: &str) -> (r: Option<(Vec<char>, usize)>)
    requires
        i <= v@.len(),
    ensures
        r matches Some((w, j)) ==> {
            &&& i <= j <= v@.len()
            &&& v@.skip(i as int) == field_pat(key@, w@, v@.skip(j as int))
            &&& forall|f: Seq<char>, rest: Seq<char>|
                v@.skip(i as int) == #[trigger] field_pat(key@, f, rest) ==> f == w@ && rest == v@.skip(
                    j as int,
                )
        },
        r is None ==> forall|f: Seq<char>, rest: Seq<char>|
            v@.skip(i as int) != #[trigger] field_pat(key@, f, rest),
{
    match match_lit(v, i, key) {
        None => {
            proof {
                assert forall|f: Seq<char>, rest: Seq<char>|
                    v@.skip(i as int) != #[trigger] field_pat(key@, f, rest) by {
                    if v@.skip(i as int) == field_pat(key@, f, rest) {
                        assert(v@.skip(i as int).len() == v@.len() - i);
                        assert(i + key@.len() <= v@.len());
                        assert(v@.subrange(i as int, i + key@.len()) =~= key@) by {
                            assert forall|t: int| 0 <= t < key@.len() implies v@.subrange(
                                i as int,
                                i + key@.len(),
                            )[t] == key@[t] by {
                                assert(v@.subrange(i as int, i + key@.len())[t] == v@.skip(
                                    i as int,
                                )[t]);
                                assert(field_pat(key@, f, rest)[t] == key@[t]);
                            }
                        }
                    }
                }
            }
            None
        },
        Some(j0) => {
            let parsed = parse_jstr(v, j0);
            proof {
                assert(v@.skip(j0 as int) =~= v@.skip(i as int).skip(key@.len() as int));
            }
            match parsed {
                None => {
                    proof {
                        assert forall|f: Seq<char>, rest: Seq<char>|
                            v@.skip(i as int) != #[trigger] field_pat(key@, f, rest) by {
                            if v@.skip(i as int) == field_pat(key@, f, rest) {
                                assert(v@.skip(j0 as int) =~= escape(f) + seq!['"'] + rest);
                                lemma_sparse_of_escape(f, rest);
                            }
                        }
                    }
                    None
                },
                Some((w, j)) => {
                    proof {
                        lemma_sparse_sound(v@.skip(j0 as int));
                        assert(v@.skip(j0 as int) == escape(w@) + seq!['"'] + v@.skip(j as int));
                        assert(v@.skip(i as int) =~= v@.subrange(i as int, j0 as int) + v@.skip(
                            j0 as int,
                        ));
                        assert(v@.skip(i as int) =~= field_pat(key@, w@, v@.skip(j as int)));
                        assert forall|f: Seq<char>, rest: Seq<char>|
                            v@.skip(i as int) == #[trigger] field_pat(key@, f, rest) implies f
                            == w@ && rest == v@.skip(j as int) by {
                            assert(v@.skip(j0 as int) =~= escape(f) + seq!['"'] + rest);
                            lemma_sparse_of_escape(f, rest);
                        }
                    }
                    Some((w, j))
                },
            }
        },
    }
}

/// Decodes a client-to-relay envelope. Returns the message whose
/// canonical encoding the input is, and `None` exactly when the input
/// is no such encoding.
pub fn decode_client_message(text: &str) -> (r: Option<ClientMessage>)
    ensures
        r matches Some(m) ==> text@ == encode_client(m),
        r is None ==> text@ != enc_get_my_id(),
        r is None ==> forall|to: Seq<char>, sdp: Seq<char>| text@ != #[trigger] enc_client_offer(to, sdp),
        r is None ==> forall|to: Seq<char>, sdp: Seq<char>| text@ != #[trigger] enc_client_answer(to, sdp),
{
    proof {
        lemma_lits();
        lemma_tag_lens();
    }
    let v = chars_vec(text);
    proof {
        assert(v@.skip(0) =~= text@);
    }
    let tf = parse_field(&v, 0, "{\"type\":\"");
    match tf {
        None => {
            proof {
                assert(text@ != enc_get_my_id()) by {
                    assert(enc_get_my_id() == field_pat(lit_type(), tag_getmyid(), lit_end()));
                }
                assert forall|to: Seq<char>, sdp: Seq<char>|
                    text@ != #[trigger] enc_client_offer(to, sdp) by {
                    assert(enc_client_offer(to, sdp) == field_pat(
                        lit_type(),
                        tag_offer(),
                        field_pat(lit_to(), to, field_pat(lit_sdp(), sdp, lit_end())),
                    ));
                }
                assert forall|to: Seq<char>, sdp: Seq<char>|
                    text@ != #[trigger] enc_client_answer(to, sdp) by {
                    assert(enc_client_answer(to, sdp) == field_pat(
                        lit_type(),
                        tag_answer(),
                        field_pat(lit_to(), to, field_pat(lit_sdp(), sdp, lit_end())),
                    ));
                }
            }
            None
        },
        Some((tag, j)) => {
            let is_offer = vec_eq_str(&tag, "Offer");
            let is_answer = if is_offer {
                false
            } else {
                vec_eq_str(&tag, "Answer")
            };
            if is_offer || is_answer {
                decode_client_body(&v, text, tag, j, is_offer)
            } else if vec_eq_str(&tag, "GetMyID") {
                if v.len() - j == 1 && v[j] == '}' {
                    proof {
                        assert(v@.skip(j as int) =~= lit_end());
                        assert(text@ == encode_client(ClientMessage::GetMyID));
                    }
                    Some(ClientMessage::GetMyID)
                } else {
                    proof {
                        assert(text@ != enc_get_my_id()) by {
                            assert(enc_get_my_id() == field_pat(
                                lit_type(),
                                tag_getmyid(),
                                lit_end(),
                            ));
                            if text@ == enc_get_my_id() {
                                assert(v@.skip(j as int) == lit_end());
                                assert(v@.len() - j == 1 && v@[j as int] == '}');
                            }
                        }
                        assert forall|to: Seq<char>, sdp: Seq<char>|
                            text@ != #[trigger] enc_client_offer(to, sdp) by {
                            assert(enc_client_offer(to, sdp) == field_pat(
                                lit_type(),
                                tag_offer(),
                                field_pat(lit_to(), to, field_pat(lit_sdp(), sdp, lit_end())),
                            ));
                        }
                        assert forall|to: Seq<char>, sdp: Seq<char>|
                            text@ != #[trigger] enc_client_answer(to, sdp) by {
                            assert(enc_client_answer(to, sdp) == field_pat(
                                lit_type(),
                                tag_answer(),
                                field_pat(lit_to(), to, field_pat(lit_sdp(), sdp, lit_end())),
                            ));
                        }
                    }
                    None
                }
            } else {
                proof {
                    assert(text@ != enc_get_my_id()) by {
                        assert(enc_get_my_id() == field_pat(lit_type(), tag_getmyid(), lit_end()));
                    }
                    assert forall|to: Seq<char>, sdp: Seq<char>|
                        text@ != #[trigger] enc_client_offer(to, sdp) by {
                        assert(enc_client_offer(to, sdp) == field_pat(
                            lit_type(),
                            tag_offer(),
                            field_pat(lit_to(), to, field_pat(lit_sdp(), sdp, lit_end())),
                        ));
                    }
                    assert forall|to: Seq<char>, sdp: Seq<char>|
                        text@ != #[trigger] enc_client_answer(to, sdp) by {
                        assert(enc_client_answer(to, sdp) == field_pat(
                            lit_type(),
                            tag_answer(),
                            field_pat(lit_to(), to, field_pat(lit_sdp(), sdp, lit_end())),
                        ));
                    }
                }
                None
            }
        },
    }
}

/// The four tags have four different lengths.
proof fn lemma_tag_lens()
    ensures
        tag_offer().len() == 5,
        tag_answer().len() == 6,
        tag_getmyid().len() == 7,
        tag_id().len() == 2,
        tag_offer() != tag_answer(),
        tag_offer() != tag_getmyid(),
        tag_offer() != tag_id(),
        tag_answer() != tag_getmyid(),
        tag_answer() != tag_id(),
        tag_getmyid() != tag_id(),
{
}

/// Decodes the `to`/`sdp` fields and closing brace shared by the two
/// addressed client messages, the tag having already been recognised.
fn decode_client_body(
    v: &Vec<char>,
    text: &str,
    tag: Vec<char>,
    j: usize,
    is_offer: bool,
) -> (r: Option<ClientMessage>)
    requires
        v@ == text@,
        j <= v@.len(),
        tag@ == if is_offer {
            tag_offer()
        } else {
            tag_answer()
        },
        v@.skip(0) == field_pat("{\"type\":\""@, tag@, v@.skip(j as int)),
        forall|f: Seq<char>, rest: Seq<char>|
            v@.skip(0) == #[trigger] field_pat("{\"type\":\""@, f, rest) ==> f == tag@ && rest
                == v@.skip(j as int),
    ensures
        r matches Some(m) ==> text@ == encode_client(m),
        r is None ==> text@ != enc_get_my_id(),
        r is None ==> forall|to: Seq<char>, sdp: Seq<char>| text@ != #[trigger] enc_client_offer(to, sdp),
        r is None ==> forall|to: Seq<char>, sdp: Seq<char>| text@ != #[trigger] enc_client_answer(to, sdp),
{
    proof {
        lemma_lits();
        lemma_tag_lens();
        assert(v@.skip(0) =~= v@);
        assert(text@ != enc_get_my_id()) by {
            assert(enc_get_my_id() == field_pat(lit_type(), tag_getmyid(), lit_end()));
        }
    }
    let f1 = parse_field(v, j, ",\"to\":\"");
    match f1 {
        None => {
            proof {
                assert forall|to: Seq<char>, sdp: Seq<char>|
                    text@ != #[trigger] enc_client_offer(to, sdp) by {
                    assert(enc_client_offer(to, sdp) == field_pat(
                        lit_type(),
                        tag_offer(),
                        field_pat(lit_to(), to, field_pat(lit_sdp(), sdp, lit_end())),
                    ));
                    if text@ == enc_client_offer(to, sdp) {
                        assert(field_pat(lit_to(), to, field_pat(lit_sdp(), sdp, lit_end()))
                            == v@.skip(j as int));
                    }
                }
                assert forall|to: Seq<char>, sdp: Seq<char>|
                    text@ != #[trigger] enc_client_answer(to, sdp) by {
                    assert(enc_client_answer(to, sdp) == field_pat(
                        lit_type(),
                        tag_answer(),
                        field_pat(lit_to(), to, field_pat(lit_sdp(), sdp, lit_end())),
                    ));
                    if text@ == enc_client_answer(to, sdp) {
                        assert(field_pat(lit_to(), to, field_pat(lit_sdp(), sdp, lit_end()))
                            == v@.skip(j as int));
                    }
                }
            }
            None
        },
        Some((tw, j2)) => {
            let f2 = parse_field(v, j2, ",\"sdp\":\"");
            match f2 {
                None => {
                    proof {
                        assert forall|to: Seq<char>, sdp: Seq<char>|
                            text@ != #[trigger] enc_client_offer(to, sdp) by {
                            assert(enc_client_offer(to, sdp) == field_pat(
                                lit_type(),
                                tag_offer(),
                                field_pat(lit_to(), to, field_pat(lit_sdp(), sdp, lit_end())),
                            ));
                            if text@ == enc_client_offer(to, sdp) {
                                assert(field_pat(lit_to(), to, field_pat(lit_sdp(), sdp, lit_end()))
                                    == v@.skip(j as int));
                                assert(field_pat(lit_sdp(), sdp, lit_end()) == v@.skip(j2 as int));
                            }
                        }
                        assert forall|to: Seq<char>, sdp: Seq<char>|
                            text@ != #[trigger] enc_client_answer(to, sdp) by {
                            assert(enc_client_answer(to, sdp) == field_pat(
                                lit_type(),
                                tag_answer(),
                                field_pat(lit_to(), to, field_pat(lit_sdp(), sdp, lit_end())),
                            ));
                            if text@ == enc_client_answer(to, sdp) {
                                assert(field_pat(lit_to(), to, field_pat(lit_sdp(), sdp, lit_end()))
                                    == v@.skip(j as int));
                                assert(field_pat(lit_sdp(), sdp, lit_end()) == v@.skip(j2 as int));
                            }
                        }
                    }
                    None
                },
                Some((sw, j3)) => {
                    if v.len() - j3 == 1 && v[j3] == '}' {
                        proof {
                            assert(v@.skip(j3 as int) =~= lit_end());
                        }
                        let m = if is_offer {
                            ClientMessage::Offer(
                                ClientOffer {
                                    to: string_from_chars(tw),
                                    sdp: string_from_chars(sw),
                                },
                            )
                        } else {
                            ClientMessage::Answer(
                                ClientAnswer {
                                    to: string_from_chars(tw),
                                    sdp: string_from_chars(sw),
                                },
                            )
                        };
                        proof {
                            assert(text@ == encode_client(m));
                        }
                        Some(m)
                    } else {
                        proof {
                            assert forall|to: Seq<char>, sdp: Seq<char>|
                                text@ != #[trigger] enc_client_offer(to, sdp) by {
                                assert(enc_client_offer(to, sdp) == field_pat(
                                    lit_type(),
                                    tag_offer(),
                                    field_pat(lit_to(), to, field_pat(lit_sdp(), sdp, lit_end())),
                                ));
                                if text@ == enc_client_offer(to, sdp) {
                                    assert(field_pat(
                                        lit_to(),
                                        to,
                                        field_pat(lit_sdp(), sdp, lit_end()),
                                    ) == v@.skip(j as int));
                                    assert(field_pat(lit_sdp(), sdp, lit_end()) == v@.skip(
                                        j2 as int,
                                    ));
                                    assert(v@.skip(j3 as int) == lit_end());
                                    assert(v@.len() - j3 == 1 && v@[j3 as int] == '}');
                                }
                            }
                            assert forall|to: Seq<char>, sdp: Seq<char>|
                                text@ != #[trigger] enc_client_answer(to, sdp) by {
                                assert(enc_client_answer(to, sdp) == field_pat(
                                    lit_type(),
                                    tag_answer(),
                                    field_pat(lit_to(), to, field_pat(lit_sdp(), sdp, lit_end())),
                                ));
                                if text@ == enc_client_answer(to, sdp) {
                                    assert(field_pat(
                                        lit_to(),
                                        to,
                                        field_pat(lit_sdp(), sdp, lit_end()),
                                    ) == v@.skip(j as int));
                                    assert(field_pat(lit_sdp(), sdp, lit_end()) == v@.skip(
                                        j2 as int,
                                    ));
                                    assert(v@.skip(j3 as int) == lit_end());
                                    assert(v@.len() - j3 == 1 && v@[j3 as int] == '}');
                                }
                            }
                        }
                        None
                    }
                },
            }
        },
    }
}

/// Decodes a relay-to-client envelope. Returns the message whose
/// canonical encoding the input is, and `None` exactly when the input
/// is no such encoding.
pub fn decode_server_message(text: &str) -> (r: Option<ServerMessage>)
    ensures
        r matches Some(m) ==> text@ == encode_server(m),
        r is None ==> forall|id: Seq<char>| text@ != #[trigger] enc_server_id(id),
        r is None ==> forall|from: Seq<char>, to: Seq<char>, sdp: Seq<char>|
            text@ != #[trigger] enc_server_offer(from, to, sdp),
        r is None ==> forall|from: Seq<char>, to: Seq<char>, sdp: Seq<char>|
            text@ != #[trigger] enc_server_answer(from, to, sdp),
{
    proof {
        lemma_lits();
        lemma_tag_lens();
    }
    let v = chars_vec(text);
    proof {
        assert(v@.skip(0) =~= text@);
    }
    let tf = parse_field(&v, 0, "{\"type\":\"");
    match tf {
        None => {
            proof {
                assert forall|id: Seq<char>| text@ != #[trigger] enc_server_id(id) by {
                    assert(enc_server_id(id) == field_pat(
                        lit_type(),
                        tag_id(),
                        field_pat(lit_id(), id, lit_end()),
                    ));
                }
                assert forall|from: Seq<char>, to: Seq<char>, sdp: Seq<char>|
                    text@ != #[trigger] enc_server_offer(from, to, sdp) by {
                    assert(enc_server_offer(from, to, sdp) == field_pat(
                        lit_type(),
                        tag_offer(),
                        field_pat(
                            lit_from(),
                            from,
                            field_pat(lit_to(), to, field_pat(lit_sdp(), sdp, lit_end())),
                        ),
                    ));
                }
                assert forall|from: Seq<char>, to: Seq<char>, sdp: Seq<char>|
                    text@ != #[trigger] enc_server_answer(from, to, sdp) by {
                    assert(enc_server_answer(from, to, sdp) == field_pat(
                        lit_type(),
                        tag_answer(),
                        field_pat(
                            lit_from(),
                            from,
                            field_pat(lit_to(), to, field_pat(lit_sdp(), sdp, lit_end())),
                        ),
                    ));
                }
            }
            None
        },
        Some((tag, j)) => {
            let is_offer = vec_eq_str(&tag, "Offer");
            let is_answer = if is_offer {
                false
            } else {
                vec_eq_str(&tag, "Answer")
            };
            if is_offer || is_answer {
                decode_server_body(&v, text, tag, j, is_offer)
            } else if vec_eq_str(&tag, "ID") {
                decode_server_id(&v, text, tag, j)
            } else {
                proof {
                    assert forall|id: Seq<char>| text@ != #[trigger] enc_server_id(id) by {
                        assert(enc_server_id(id) == field_pat(
                            lit_type(),
                            tag_id(),
                            field_pat(lit_id(), id, lit_end()),
                        ));
                    }
                    assert forall|from: Seq<char>, to: Seq<char>, sdp: Seq<char>|
                        text@ != #[trigger] enc_server_offer(from, to, sdp) by {
                        assert(enc_server_offer(from, to, sdp) == field_pat(
                            lit_type(),
                            tag_offer(),
                            field_pat(
                                lit_from(),
                                from,
                                field_pat(lit_to(), to, field_pat(lit_sdp(), sdp, lit_end())),
                            ),
                        ));
                    }
                    assert forall|from: Seq<char>, to: Seq<char>, sdp: Seq<char>|
                        text@ != #[trigger] enc_server_answer(from, to, sdp) by {
                        assert(enc_server_answer(from, to, sdp) == field_pat(
                            lit_type(),
                            tag_answer(),
                            field_pat(
                                lit_from(),
                                from,
                                field_pat(lit_to(), to, field_pat(lit_sdp(), sdp, lit_end())),
                            ),
                        ));
                    }
                }
                None
            }
        },
    }
}

/// Decodes the `id` field and closing brace of an identity reply, the
/// tag having already been recognised.
fn decode_server_id(v: &Vec<char>, text: &str, tag: Vec<char>, j: usize) -> (r: Option<
    ServerMessage,
>)
    requires
        v@ == text@,
        j <= v@.len(),
        tag@ == tag_id(),
        v@.skip(0) == field_pat("{\"type\":\""@, tag@, v@.skip(j as int)),
        forall|f: Seq<char>, rest: Seq<char>|
            v@.skip(0) == #[trigger] field_pat("{\"type\":\""@, f, rest) ==> f == tag@ && rest
                == v@.skip(j as int),
    ensures
        r matches Some(m) ==> text@ == encode_server(m),
        r is None ==> forall|id: Seq<char>| text@ != #[trigger] enc_server_id(id),
        r is None ==> forall|from: Seq<char>, to: Seq<char>, sdp: Seq<char>|
            text@ != #[trigger] enc_server_offer(from, to, sdp),
        r is None ==> forall|from: Seq<char>, to: Seq<char>, sdp: Seq<char>|
            text@ != #[trigger] enc_server_answer(from, to, sdp),
{
    proof {
        lemma_lits();
        lemma_tag_lens();
        assert(v@.skip(0) =~= v@);
        assert forall|from: Seq<char>, to: Seq<char>, sdp: Seq<char>|
            text@ != #[trigger] enc_server_offer(from, to, sdp) by {
            assert(enc_server_offer(from, to, sdp) == field_pat(
                lit_type(),
                tag_offer(),
                field_pat(
                    lit_from(),
                    from,
                    field_pat(lit_to(), to, field_pat(lit_sdp(), sdp, lit_end())),
                ),
            ));
        }
        assert forall|from: Seq<char>, to: Seq<char>, sdp: Seq<char>|
            text@ != #[trigger] enc_server_answer(from, to, sdp) by {
            assert(enc_server_answer(from, to, sdp) == field_pat(
                lit_type(),
                tag_answer(),
                field_pat(
                    lit_from(),
                    from,
                    field_pat(lit_to(), to, field_pat(lit_sdp(), sdp, lit_end())),
                ),
            ));
        }
    }
    let f1 = parse_field(v, j, ",\"id\":\"");
    match f1 {
        None => {
            proof {
                assert forall|id: Seq<char>| text@ != #[trigger] enc_server_id(id) by {
                    assert(enc_server_id(id) == field_pat(
                        lit_type(),
                        tag_id(),
                        field_pat(lit_id(), id, lit_end()),
                    ));
                    if text@ == enc_server_id(id) {
                        assert(field_pat(lit_id(), id, lit_end()) == v@.skip(j as int));
                    }
                }
            }
            None
        },
        Some((iw, j2)) => {
            if v.len() - j2 == 1 && v[j2] == '}' {
                proof {
                    assert(v@.skip(j2 as int) =~= lit_end());
                }
                let m = ServerMessage::ID(ID { id: string_from_chars(iw) });
                proof {
                    assert(text@ == encode_server(m));
                }
                Some(m)
            } else {
                proof {
                    assert forall|id: Seq<char>| text@ != #[trigger] enc_server_id(id) by {
                        assert(enc_server_id(id) == field_pat(
                            lit_type(),
                            tag_id(),
                            field_pat(lit_id(), id, lit_end()),
                        ));
                        if text@ == enc_server_id(id) {
                            assert(field_pat(lit_id(), id, lit_end()) == v@.skip(j as int));
                            assert(v@.skip(j2 as int) == lit_end());
                            assert(v@.len() - j2 == 1 && v@[j2 as int] == '}');
                        }
                    }
                }
                None
            }
        },
    }
}

/// Decodes the `from`/`to`/`sdp` fields and closing brace shared by the
/// two forwarded relay messages, the tag having already been recognised.
fn decode_server_body(
    v: &Vec<char>,
    text: &str,
    tag: Vec<char>,
    j: usize,
    is_offer: bool,
) -> (r: Option<ServerMessage>)
    requires
        v@ == text@,
        j <= v@.len(),
        tag@ == if is_offer {
            tag_offer()
        } else {
            tag_answer()
        },
        v@.skip(0) == field_pat("{\"type\":\""@, tag@, v@.skip(j as int)),
        forall|f: Seq<char>, rest: Seq<char>|
            v@.skip(0) == #[trigger] field_pat("{\"type\":\""@, f, rest) ==> f == tag@ && rest
                == v@.skip(j as int),
    ensures
        r matches Some(m) ==> text@ == encode_server(m),
        r is None ==> forall|id: Seq<char>| text@ != #[trigger] enc_server_id(id),
        r is None ==> forall|from: Seq<char>, to: Seq<char>, sdp: Seq<char>|
            text@ != #[trigger] enc_server_offer(from, to, sdp),
        r is None ==> forall|from: Seq<char>, to: Seq<char>, sdp: Seq<char>|
            text@ != #[trigger] enc_server_answer(from, to, sdp),
{
    proof {
        lemma_lits();
        lemma_tag_lens();
        assert(v@.skip(0) =~= v@);
        assert forall|id: Seq<char>| text@ != #[trigger] enc_server_id(id) by {
            assert(enc_server_id(id) == field_pat(
                lit_type(),
                tag_id(),
                field_pat(lit_id(), id, lit_end()),
            ));
        }
    }
    let f0 = parse_field(v, j, ",\"from\":\"");
    match f0 {
        None => {
            proof {
                assert forall|from: Seq<char>, to: Seq<char>, sdp: Seq<char>|
                    text@ != #[trigger] enc_server_offer(from, to, sdp) by {
                    assert(enc_server_offer(from, to, sdp) == field_pat(
                        lit_type(),
                        tag_offer(),
                        field_pat(
                            lit_from(),
                            from,
                            field_pat(lit_to(), to, field_pat(lit_sdp(), sdp, lit_end())),
                        ),
                    ));
                    if text@ == enc_server_offer(from, to, sdp) {
                        assert(field_pat(
                            lit_from(),
                            from,
                            field_pat(lit_to(), to, field_pat(lit_sdp(), sdp, lit_end())),
                        ) == v@.skip(j as int));
                    }
                }
                assert forall|from: Seq<char>, to: Seq<char>, sdp: Seq<char>|
                    text@ != #[trigger] enc_server_answer(from, to, sdp) by {
                    assert(enc_server_answer(from, to, sdp) == field_pat(
                        lit_type(),
                        tag_answer(),
                        field_pat(
                            lit_from(),
                            from,
                            field_pat(lit_to(), to, field_pat(lit_sdp(), sdp, lit_end())),
                        ),
                    ));
                    if text@ == enc_server_answer(from, to, sdp) {
                        assert(field_pat(
                            lit_from(),
                            from,
                            field_pat(lit_to(), to, field_pat(lit_sdp(), sdp, lit_end())),
                        ) == v@.skip(j as int));
                    }
                }
            }
            None
        },
        Some((fw, j1)) => {
            let f1 = parse_field(v, j1, ",\"to\":\"");
            match f1 {
                None => {
                    proof {
                        assert forall|from: Seq<char>, to: Seq<char>, sdp: Seq<char>|
                            text@ != #[trigger] enc_server_offer(from, to, sdp) by {
                            assert(enc_server_offer(from, to, sdp) == field_pat(
                                lit_type(),
                                tag_offer(),
                                field_pat(
                                    lit_from(),
                                    from,
                                    field_pat(lit_to(), to, field_pat(lit_sdp(), sdp, lit_end())),
                                ),
                            ));
                            if text@ == enc_server_offer(from, to, sdp) {
                                assert(field_pat(
                                    lit_from(),
                                    from,
                                    field_pat(lit_to(), to, field_pat(lit_sdp(), sdp, lit_end())),
                                ) == v@.skip(j as int));
                                assert(field_pat(lit_to(), to, field_pat(lit_sdp(), sdp, lit_end()))
                                    == v@.skip(j1 as int));
                            }
                        }
                        assert forall|from: Seq<char>, to: Seq<char>, sdp: Seq<char>|
                            text@ != #[trigger] enc_server_answer(from, to, sdp) by {
                            assert(enc_server_answer(from, to, sdp) == field_pat(
                                lit_type(),
                                tag_answer(),
                                field_pat(
                                    lit_from(),
                                    from,
                                    field_pat(lit_to(), to, field_pat(lit_sdp(), sdp, lit_end())),
                                ),
                            ));
                            if text@ == enc_server_answer(from, to, sdp) {
                                assert(field_pat(
                                    lit_from(),
                                    from,
                                    field_pat(lit_to(), to, field_pat(lit_sdp(), sdp, lit_end())),
                                ) == v@.skip(j as int));
                                assert(field_pat(lit_to(), to, field_pat(lit_sdp(), sdp, lit_end()))
                                    == v@.skip(j1 as int));
                            }
                        }
                    }
                    None
                },
                Some((tw, j2)) => {
                    let f2 = parse_field(v, j2, ",\"sdp\":\"");
                    match f2 {
                        None => {
                            proof {
                                assert forall|from: Seq<char>, to: Seq<char>, sdp: Seq<char>|
                                    text@ != #[trigger] enc_server_offer(from, to, sdp) by {
                                    assert(enc_server_offer(from, to, sdp) == field_pat(
                                        lit_type(),
                                        tag_offer(),
                                        field_pat(
                                            lit_from(),
                                            from,
                                            field_pat(
                                                lit_to(),
                                                to,
                                                field_pat(lit_sdp(), sdp, lit_end()),
                                            ),
                                        ),
                                    ));
                                    if text@ == enc_server_offer(from, to, sdp) {
                                        assert(field_pat(
                                            lit_from(),
                                            from,
                                            field_pat(
                                                lit_to(),
                                                to,
                                                field_pat(lit_sdp(), sdp, lit_end()),
                                            ),
                                        ) == v@.skip(j as int));
                                        assert(field_pat(
                                            lit_to(),
                                            to,
                                            field_pat(lit_sdp(), sdp, lit_end()),
                                        ) == v@.skip(j1 as int));
                                        assert(field_pat(lit_sdp(), sdp, lit_end()) == v@.skip(
                                            j2 as int,
                                        ));
                                    }
                                }
                                assert forall|from: Seq<char>, to: Seq<char>, sdp: Seq<char>|
                                    text@ != #[trigger] enc_server_answer(from, to, sdp) by {
                                    assert(enc_server_answer(from, to, sdp) == field_pat(
                                        lit_type(),
                                        tag_answer(),
                                        field_pat(
                                            lit_from(),
                                            from,
                                            field_pat(
                                                lit_to(),
                                                to,
                                                field_pat(lit_sdp(), sdp, lit_end()),
                                            ),
                                        ),
                                    ));
                                    if text@ == enc_server_answer(from, to, sdp) {
                                        assert(field_pat(
                                            lit_from(),
                                            from,
                                            field_pat(
                                                lit_to(),
                                                to,
                                                field_pat(lit_sdp(), sdp, lit_end()),
                                            ),
                                        ) == v@.skip(j as int));
                                        assert(field_pat(
                                            lit_to(),
                                            to,
                                            field_pat(lit_sdp(), sdp, lit_end()),
                                        ) == v@.skip(j1 as int));
                                        assert(field_pat(lit_sdp(), sdp, lit_end()) == v@.skip(
                                            j2 as int,
                                        ));
                                    }
                                }
                            }
                            None
                        },
                        Some((sw, j3)) => {
                            if v.len() - j3 == 1 && v[j3] == '}' {
                                proof {
                                    assert(v@.skip(j3 as int) =~= lit_end());
                                }
                                let m = if is_offer {
                                    ServerMessage::Offer(
                                        ServerOffer {
                                            from: string_from_chars(fw),
                                            to: string_from_chars(tw),
                                            sdp: string_from_chars(sw),
                                        },
                                    )
                                } else {
                                    ServerMessage::Answer(
                                        ServerAnswer {
                                            from: string_from_chars(fw),
                                            to: string_from_chars(tw),
                                            sdp: string_from_chars(sw),
                                        },
                                    )
                                };
                                proof {
                                    assert(text@ == encode_server(m));
                                }
                                Some(m)
                            } else {
                                proof {
                                    assert forall|from: Seq<char>, to: Seq<char>, sdp: Seq<char>|
                                        text@ != #[trigger] enc_server_offer(from, to, sdp) by {
                                        assert(enc_server_offer(from, to, sdp) == field_pat(
                                            lit_type(),
                                            tag_offer(),
                                            field_pat(
                                                lit_from(),
                                                from,
                                                field_pat(
                                                    lit_to(),
                                                    to,
                                                    field_pat(lit_sdp(), sdp, lit_end()),
                                                ),
                                            ),
                                        ));
                                        if text@ == enc_server_offer(from, to, sdp) {
                                            assert(field_pat(
                                                lit_from(),
                                                from,
                                                field_pat(
                                                    lit_to(),
                                                    to,
                                                    field_pat(lit_sdp(), sdp, lit_end()),
                                                ),
                                            ) == v@.skip(j as int));
                                            assert(field_pat(
                                                lit_to(),
                                                to,
                                                field_pat(lit_sdp(), sdp, lit_end()),
                                            ) == v@.skip(j1 as int));
                                            assert(field_pat(lit_sdp(), sdp, lit_end()) == v@.skip(
                                                j2 as int,
                                            ));
                                            assert(v@.skip(j3 as int) == lit_end());
                                            assert(v@.len() - j3 == 1 && v@[j3 as int] == '}');
                                        }
                                    }
                                    assert forall|from: Seq<char>, to: Seq<char>, sdp: Seq<char>|
                                        text@ != #[trigger] enc_server_answer(from, to, sdp) by {
                                        assert(enc_server_answer(from, to, sdp) == field_pat(
                                            lit_type(),
                                            tag_answer(),
                                            field_pat(
                                                lit_from(),
                                                from,
                                                field_pat(
                                                    lit_to(),
                                                    to,
                                                    field_pat(lit_sdp(), sdp, lit_end()),
                                                ),
                                            ),
                                        ));
                                        if text@ == enc_server_answer(from, to, sdp) {
                                            assert(field_pat(
                                                lit_from(),
                                                from,
                                                field_pat(
                                                    lit_to(),
                                                    to,
                                                    field_pat(lit_sdp(), sdp, lit_end()),
                                                ),
                                            ) == v@.skip(j as int));
                                            assert(field_pat(
                                                lit_to(),
                                                to,
                                                field_pat(lit_sdp(), sdp, lit_end()),
                                            ) == v@.skip(j1 as int));
                                            assert(field_pat(lit_sdp(), sdp, lit_end()) == v@.skip(
                                                j2 as int,
                                            ));
                                            assert(v@.skip(j3 as int) == lit_end());
                                            assert(v@.len() - j3 == 1 && v@[j3 as int] == '}');
                                        }
                                    }
                                }
                                None
                            }
                        },
                    }
                },
            }
        },
    }
}

/// Appends the characters of `s` to `out`, unchanged.
fn append_str(out: &mut Vec<char>, s: &str)
    ensures
        final(out)@ == old(out)@ + s@,
{
    let cs = chars_vec(s);
    let mut k: usize = 0;
    while k < cs.len()
        invariant
            0 <= k <= cs@.len(),
            cs@ == s@,
            out@ == old(out)@ + cs@.subrange(0, k as int),
        decreases cs@.len() - k,
    {
        out.push(cs[k]);
        proof {
            assert(old(out)@ + cs@.subrange(0, k as int) + seq![cs@[k as int]] =~= old(out)@
                + cs@.subrange(0, k + 1));
        }
        k += 1;
    }
    proof {
        assert(cs@.subrange(0, cs@.len() as int) =~= s@);
    }
}

/// Appends one character in its escaped form.
fn append_esc_char(out: &mut Vec<char>, c: char)
    ensures
        final(out)@ == old(out)@ + esc_char(c),
{
    if c == '"' {
        out.push('\\');
        out.push('"');
        proof {
            assert(out@ =~= old(out)@ + esc_char(c));
        }
    } else if c == '\\' {
        out.push('\\');
        out.push('\\');
        proof {
            assert(out@ =~= old(out)@ + esc_char(c));
        }
    } else if c == '\n' {
        out.push('\\');
        out.push('n');
        proof {
            assert(out@ =~= old(out)@ + esc_char(c));
        }
    } else if c == '\r' {
        out.push('\\');
        out.push('r');
        proof {
            assert(out@ =~= old(out)@ + esc_char(c));
        }
    } else if c == '\t' {
        out.push('\\');
        out.push('t');
        proof {
            assert(out@ =~= old(out)@ + esc_char(c));
        }
    } else if char_is_ctl(c) {
        let n: u32 = c as u32;
        out.push('\\');
        out.push('u');
        out.push('0');
        out.push('0');
        out.push(hex_digit_exec(n / 16));
        out.push(hex_digit_exec(n % 16));
        proof {
            assert((n / 16) as int == ((c as u32) as int) / 16);
            assert((n % 16) as int == ((c as u32) as int) % 16);
            assert(out@ =~= old(out)@ + esc_char(c));
        }
    } else {
        out.push(c);
        proof {
            assert(out@ =~= old(out)@ + esc_char(c));
        }
    }
}

/// Appends the characters of `s` in escaped form.
fn append_escaped(out: &mut Vec<char>, s: &str)
    ensures
        final(out)@ == old(out)@ + escape(s@),
{
    let cs = chars_vec(s);
    let mut k: usize = 0;
    while k < cs.len()
        invariant
            0 <= k <= cs@.len(),
            cs@ == s@,
            out@ == old(out)@ + escape(cs@.subrange(0, k as int)),
        decreases cs@.len() - k,
    {
        proof {
            assert(cs@.subrange(0, k + 1) =~= cs@.subrange(0, k as int) + seq![cs@[k as int]]);
            lemma_escape_concat(cs@.subrange(0, k as int), seq![cs@[k as int]]);
            assert(escape(seq![cs@[k as int]]) =~= esc_char(cs@[k as int])) by {
                let single = seq![cs@[k as int]];
                assert(single.len() == 1 && single[0] == cs@[k as int]);
                assert(single.skip(1) =~= Seq::<char>::empty());
                assert(escape(Seq::<char>::empty()) == Seq::<char>::empty());
                assert(escape(single) == esc_char(cs@[k as int]) + escape(Seq::<char>::empty()));
                assert(esc_char(cs@[k as int]) + Seq::<char>::empty() =~= esc_char(cs@[k as int]));
            }
        }
        append_esc_char(out, cs[k]);
        proof {
            assert(old(out)@ + escape(cs@.subrange(0, k as int)) + esc_char(cs@[k as int]) =~= old(
                out,
            )@ + escape(cs@.subrange(0, k + 1)));
        }
        k += 1;
    }
    proof {
        assert(cs@.subrange(0, cs@.len() as int) =~= s@);
    }
}

/// Appends an escaped string value and its closing quote.
fn append_value(out: &mut Vec<char>, s: &str)
    ensures
        final(out)@ == old(out)@ + escape(s@) + seq!['"'],
{
    append_escaped(out, s);
    out.push('"');
}

/// Encodes a client-to-relay message in its canonical envelope.
pub fn encode_client_message(m: &ClientMessage) -> (r: String)
    ensures
        r@ == encode_client(*m),
{
    proof {
        lemma_lits();
    }
    let mut out: Vec<char> = Vec::new();
    match m {
        ClientMessage::Offer(o) => {
            append_str(&mut out, "{\"type\":\"");
            append_value(&mut out, "Offer");
            append_str(&mut out, ",\"to\":\"");
            append_value(&mut out, o.to.as_str());
            append_str(&mut out, ",\"sdp\":\"");
            append_value(&mut out, o.sdp.as_str());
            append_str(&mut out, "}");
            proof {
                reveal_strlit("}");
                assert("}"@ =~= lit_end());
                assert(out@ =~= encode_client(*m));
            }
        },
        ClientMessage::Answer(a) => {
            append_str(&mut out, "{\"type\":\"");
            append_value(&mut out, "Answer");
            append_str(&mut out, ",\"to\":\"");
            append_value(&mut out, a.to.as_str());
            append_str(&mut out, ",\"sdp\":\"");
            append_value(&mut out, a.sdp.as_str());
            append_str(&mut out, "}");
            proof {
                reveal_strlit("}");
                assert("}"@ =~= lit_end());
                assert(out@ =~= encode_client(*m));
            }
        },
        ClientMessage::GetMyID => {
            append_str(&mut out, "{\"type\":\"");
            append_value(&mut out, "GetMyID");
            append_str(&mut out, "}");
            proof {
                reveal_strlit("}");
                assert("}"@ =~= lit_end());
                assert(out@ =~= encode_client(*m));
            }
        },
    }
    string_from_chars(out)
}

/// Encodes a relay-to-client message in its canonical envelope.
pub fn encode_server_message(m: &ServerMessage) -> (r: String)
    ensures
        r@ == encode_server(*m),
{
    proof {
        lemma_lits();
    }
    let mut out: Vec<char> = Vec::new();
    match m {
        ServerMessage::Offer(o) => {
            append_str(&mut out, "{\"type\":\"");
            append_value(&mut out, "Offer");
            append_str(&mut out, ",\"from\":\"");
            append_value(&mut out, o.from.as_str());
            append_str(&mut out, ",\"to\":\"");
            append_value(&mut out, o.to.as_str());
            append_str(&mut out, ",\"sdp\":\"");
            append_value(&mut out, o.sdp.as_str());
            append_str(&mut out, "}");
            proof {
                reveal_strlit("}");
                assert("}"@ =~= lit_end());
                assert(out@ =~= encode_server(*m));
            }
        },
        ServerMessage::Answer(a) => {
            append_str(&mut out, "{\"type\":\"");
            append_value(&mut out, "Answer");
            append_str(&mut out, ",\"from\":\"");
            append_value(&mut out, a.from.as_str());
            append_str(&mut out, ",\"to\":\"");
            append_value(&mut out, a.to.as_str());
            append_str(&mut out, ",\"sdp\":\"");
            append_value(&mut out, a.sdp.as_str());
            append_str(&mut out, "}");
            proof {
                reveal_strlit("}");
                assert("}"@ =~= lit_end());
                assert(out@ =~= encode_server(*m));
            }
        },
        ServerMessage::ID(i) => {
            append_str(&mut out, "{\"type\":\"");
            append_value(&mut out, "ID");
            append_str(&mut out, ",\"id\":\"");
            append_value(&mut out, i.id.as_str());
            append_str(&mut out, "}");
            proof {
                reveal_strlit("}");
                assert("}"@ =~= lit_end());
                assert(out@ =~= encode_server(*m));
            }
        },
    }
    string_from_chars(out)
}

/// Character-wise string equality, tied to the views.
pub fn str_eq(a: &str, b: &str) -> (r: bool)
    ensures
        r <==> a@ == b@,
{
    let va = chars_vec(a);
    vec_eq_str(&va, b)
}

} // verus!
