//! Why the integrity tag protects what it claims to: the message it
//! authenticates is a faithful encoding of the protected fields, so two
//! metadata values with the same message agree on every one of them.

use vstd::prelude::*;

use vstd::utf8::*;

use crate::text::{decimal_chars, digit_char};
use crate::vault::{
    hex_char, hex_digits, lemma_hex_digits_len, lemma_uuid_text_len, bool_text, byte_items, code_items, code_text, integrity_bytes, integrity_text, json_bytes,
    json_codes, json_secret, uuid_text, RecoveryCode, VaultMetadata,
};

verus! {

/// A decimal digit character.
pub open spec fn is_digit(c: char) -> bool {
    '0' <= c <= '9'
}

/// Equal sequences that start with prefixes of the same length have equal
/// prefixes and equal rests.
proof fn lemma_split<A>(p1: Seq<A>, x: Seq<A>, p2: Seq<A>, y: Seq<A>)
    requires
        p1 + x == p2 + y,
        p1.len() == p2.len(),
    ensures
        p1 == p2,
        x == y,
{
    assert(p1 =~= (p1 + x).take(p1.len() as int));
    assert(p2 =~= (p2 + y).take(p2.len() as int));
    assert(x =~= (p1 + x).skip(p1.len() as int));
    assert(y =~= (p2 + y).skip(p2.len() as int));
}

proof fn lemma_decimal_chars_digits(n: nat)
    ensures
        decimal_chars(n).len() >= 1,
        n < 10 <==> decimal_chars(n).len() == 1,
        forall|i: int| 0 <= i < decimal_chars(n).len() ==> is_digit(#[trigger] decimal_chars(n)[i]),
    decreases n,
{
    if n >= 10 {
        lemma_decimal_chars_digits(n / 10);
        let d = decimal_chars(n / 10);
        assert forall|i: int| 0 <= i < decimal_chars(n).len() implies is_digit(
            #[trigger] decimal_chars(n)[i],
        ) by {
            if i < d.len() {
                assert(decimal_chars(n)[i] == d[i]);
            }
        }
    }
}

proof fn lemma_digit_char_injective(a: nat, b: nat)
    requires
        a < 10,
        b < 10,
        digit_char(a) == digit_char(b),
    ensures
        a == b,
{
    assert(digit_char(a) as u32 == a + 48);
    assert(digit_char(b) as u32 == b + 48);
}

proof fn lemma_decimal_chars_injective(n: nat, m: nat)
    requires
        decimal_chars(n) == decimal_chars(m),
    ensures
        n == m,
    decreases n,
{
    lemma_decimal_chars_digits(n);
    lemma_decimal_chars_digits(m);
    if n >= 10 {
        let dn = decimal_chars(n);
        assert(dn.drop_last() == decimal_chars(n / 10));
        assert(dn.drop_last() == decimal_chars(m / 10));
        lemma_decimal_chars_injective(n / 10, m / 10);
        assert(dn.last() == digit_char(n % 10));
        assert(decimal_chars(m).last() == digit_char(m % 10));
        lemma_digit_char_injective(n % 10, m % 10);
    } else {
        assert(decimal_chars(n)[0] == digit_char(n));
        assert(decimal_chars(m)[0] == digit_char(m));
        lemma_digit_char_injective(n, m);
    }
}

/// A number's digits followed by text that starts with a non-digit can be
/// read back: the number and the text are determined.
proof fn lemma_read_number(n: nat, x: Seq<char>, m: nat, y: Seq<char>)
    requires
        decimal_chars(n) + x == decimal_chars(m) + y,
        x.len() > 0 && !is_digit(x[0]),
        y.len() > 0 && !is_digit(y[0]),
    ensures
        n == m,
        x == y,
{
    lemma_decimal_chars_digits(n);
    lemma_decimal_chars_digits(m);
    let dn = decimal_chars(n);
    let dm = decimal_chars(m);
    if dn.len() < dm.len() {
        assert((dn + x)[dn.len() as int] == x[0]);
        assert((dm + y)[dn.len() as int] == dm[dn.len() as int]);
    } else if dm.len() < dn.len() {
        assert((dm + y)[dm.len() as int] == y[0]);
        assert((dn + x)[dm.len() as int] == dn[dm.len() as int]);
    } else {
        lemma_split(dn, x, dm, y);
        lemma_decimal_chars_injective(n, m);
    }
}

/// `byte_items` read from the front: the first number, then, if there is
/// more, a comma and the items of the rest.
proof fn lemma_byte_items_front(v: Seq<u8>)
    requires
        v.len() >= 1,
    ensures
        byte_items(v) == decimal_chars(v[0] as nat) + if v.len() == 1 {
            Seq::<char>::empty()
        } else {
            seq![','] + byte_items(v.drop_first())
        },
    decreases v.len(),
{
    if v.len() == 1 {
        assert(decimal_chars(v[0] as nat) + Seq::<char>::empty() =~= decimal_chars(v[0] as nat));
    } else {
        let init = v.drop_last();
        lemma_byte_items_front(init);
        assert(init[0] == v[0]);
        assert(init.drop_first() =~= v.drop_first().drop_last());
        assert(v.drop_first().last() == v.last());
        let d0 = decimal_chars(v[0] as nat);
        let dl = decimal_chars(v.last() as nat);
        if v.len() == 2 {
            assert(v.drop_first().len() == 1);
            assert(byte_items(v.drop_first()) == decimal_chars(v.drop_first()[0] as nat));
            assert(v.drop_first()[0] == v.last());
            assert(d0 + Seq::<char>::empty() + seq![','] + dl =~= d0 + (seq![','] + dl));
        } else {
            let r = byte_items(v.drop_first().drop_last());
            assert(d0 + (seq![','] + r) + seq![','] + dl =~= d0 + (seq![','] + (r + seq![','] + dl)));
        }
    }
}

/// The byte array of a JSON list, followed by `]`, can be read back.
proof fn lemma_read_byte_items(v: Seq<u8>, x: Seq<char>, w: Seq<u8>, y: Seq<char>)
    requires
        byte_items(v) + seq![']'] + x == byte_items(w) + seq![']'] + y,
    ensures
        v == w,
        x == y,
    decreases v.len() + w.len(),
{
    if v.len() == 0 && w.len() == 0 {
        lemma_split(byte_items(v) + seq![']'], x, byte_items(w) + seq![']'], y);
    } else if v.len() == 0 {
        lemma_byte_items_front(w);
        lemma_decimal_chars_digits(w[0] as nat);
        assert((byte_items(v) + seq![']'] + x)[0] == ']');
        assert((byte_items(w) + seq![']'] + y)[0] == decimal_chars(w[0] as nat)[0]);
    } else if w.len() == 0 {
        lemma_byte_items_front(v);
        lemma_decimal_chars_digits(v[0] as nat);
        assert((byte_items(w) + seq![']'] + y)[0] == ']');
        assert((byte_items(v) + seq![']'] + x)[0] == decimal_chars(v[0] as nat)[0]);
    } else {
        lemma_byte_items_front(v);
        lemma_byte_items_front(w);
        let tv = if v.len() == 1 {
            seq![']'] + x
        } else {
            seq![','] + (byte_items(v.drop_first()) + seq![']'] + x)
        };
        let tw = if w.len() == 1 {
            seq![']'] + y
        } else {
            seq![','] + (byte_items(w.drop_first()) + seq![']'] + y)
        };
        assert(byte_items(v) + seq![']'] + x =~= decimal_chars(v[0] as nat) + tv);
        assert(byte_items(w) + seq![']'] + y =~= decimal_chars(w[0] as nat) + tw);
        lemma_read_number(v[0] as nat, tv, w[0] as nat, tw);
        if v.len() == 1 && w.len() == 1 {
            lemma_split(seq![']'], x, seq![']'], y);
            assert(v =~= w);
        } else if v.len() == 1 {
            assert(tv[0] == ']' && tw[0] == ',');
        } else if w.len() == 1 {
            assert(tv[0] == ',' && tw[0] == ']');
        } else {
            lemma_split(
                seq![','],
                byte_items(v.drop_first()) + seq![']'] + x,
                seq![','],
                byte_items(w.drop_first()) + seq![']'] + y,
            );
            lemma_read_byte_items(v.drop_first(), x, w.drop_first(), y);
            assert(v =~= seq![v[0]] + v.drop_first());
            assert(w =~= seq![w[0]] + w.drop_first());
        }
    }
}

/// A JSON byte array followed by anything can be read back.
pub proof fn lemma_read_json_bytes(v: Seq<u8>, x: Seq<char>, w: Seq<u8>, y: Seq<char>)
    requires
        json_bytes(v) + x == json_bytes(w) + y,
    ensures
        v == w,
        x == y,
{
    assert(json_bytes(v) + x =~= seq!['['] + (byte_items(v) + seq![']'] + x));
    assert(json_bytes(w) + y =~= seq!['['] + (byte_items(w) + seq![']'] + y));
    lemma_split(seq!['['], byte_items(v) + seq![']'] + x, seq!['['], byte_items(w) + seq![']'] + y);
    lemma_read_byte_items(v, x, w, y);
}

/// A `true` or `false` followed by anything can be read back.
proof fn lemma_read_bool(a: bool, x: Seq<char>, b: bool, y: Seq<char>)
    requires
        bool_text(a) + x == bool_text(b) + y,
    ensures
        a == b,
        x == y,
{
    reveal_strlit("true");
    reveal_strlit("false");
    if a != b {
        assert((bool_text(a) + x)[0] == bool_text(a)[0]);
        assert((bool_text(b) + y)[0] == bool_text(b)[0]);
    }
    lemma_split(bool_text(a), x, bool_text(b), y);
}

/// What is compared of a stored recovery code: its hash and whether it was
/// used.
pub open spec fn code_view(c: RecoveryCode) -> (Seq<u8>, bool) {
    (c.hash@, c.used)
}

pub open spec fn codes_view(codes: Seq<RecoveryCode>) -> Seq<(Seq<u8>, bool)> {
    codes.map_values(|c: RecoveryCode| code_view(c))
}

/// The bytes of an encrypted TOTP secret, if there is one.
pub open spec fn secret_view(secret: Option<Vec<u8>>) -> Option<Seq<u8>> {
    match secret {
        Some(v) => Some(v@),
        None => None,
    }
}

/// One recovery code's JSON object followed by anything can be read back.
proof fn lemma_read_code_text(h1: Seq<u8>, u1: bool, x: Seq<char>, h2: Seq<u8>, u2: bool, y: Seq<char>)
    requires
        code_text(h1, u1) + x == code_text(h2, u2) + y,
    ensures
        h1 == h2,
        u1 == u2,
        x == y,
{
    let open = "{\"hash\":"@;
    let mid = ",\"used\":"@;
    assert(code_text(h1, u1) + x =~= open + (json_bytes(h1) + (mid + (bool_text(u1) + (seq!['}']
        + x)))));
    assert(code_text(h2, u2) + y =~= open + (json_bytes(h2) + (mid + (bool_text(u2) + (seq!['}']
        + y)))));
    lemma_split(
        open,
        json_bytes(h1) + (mid + (bool_text(u1) + (seq!['}'] + x))),
        open,
        json_bytes(h2) + (mid + (bool_text(u2) + (seq!['}'] + y))),
    );
    lemma_read_json_bytes(
        h1,
        mid + (bool_text(u1) + (seq!['}'] + x)),
        h2,
        mid + (bool_text(u2) + (seq!['}'] + y)),
    );
    lemma_split(mid, bool_text(u1) + (seq!['}'] + x), mid, bool_text(u2) + (seq!['}'] + y));
    lemma_read_bool(u1, seq!['}'] + x, u2, seq!['}'] + y);
    lemma_split(seq!['}'], x, seq!['}'], y);
}

/// `code_items` read from the front.
proof fn lemma_code_items_front(c: Seq<RecoveryCode>)
    requires
        c.len() >= 1,
    ensures
        code_items(c) == code_text(c[0].hash@, c[0].used) + if c.len() == 1 {
            Seq::<char>::empty()
        } else {
            seq![','] + code_items(c.drop_first())
        },
    decreases c.len(),
{
    let t0 = code_text(c[0].hash@, c[0].used);
    if c.len() == 1 {
        assert(t0 + Seq::<char>::empty() =~= t0);
    } else {
        let init = c.drop_last();
        lemma_code_items_front(init);
        assert(init[0] == c[0]);
        assert(init.drop_first() =~= c.drop_first().drop_last());
        assert(c.drop_first().last() == c.last());
        let tl = code_text(c.last().hash@, c.last().used);
        if c.len() == 2 {
            assert(c.drop_first().len() == 1);
            assert(c.drop_first()[0] == c.last());
            assert(code_items(c.drop_first()) == tl);
            assert(t0 + Seq::<char>::empty() + seq![','] + tl =~= t0 + (seq![','] + tl));
        } else {
            let r = code_items(c.drop_first().drop_last());
            assert(t0 + (seq![','] + r) + seq![','] + tl =~= t0 + (seq![','] + (r + seq![','] + tl)));
        }
    }
}

/// The recovery codes of a JSON list, followed by `]`, can be read back.
proof fn lemma_read_code_items(c: Seq<RecoveryCode>, x: Seq<char>, d: Seq<RecoveryCode>, y: Seq<char>)
    requires
        code_items(c) + seq![']'] + x == code_items(d) + seq![']'] + y,
    ensures
        codes_view(c) == codes_view(d),
        x == y,
    decreases c.len() + d.len(),
{
    reveal_strlit("{\"hash\":");
    if c.len() == 0 && d.len() == 0 {
        lemma_split(code_items(c) + seq![']'], x, code_items(d) + seq![']'], y);
        assert(codes_view(c) =~= codes_view(d));
    } else if c.len() == 0 {
        lemma_code_items_front(d);
        assert((code_items(c) + seq![']'] + x)[0] == ']');
        assert((code_items(d) + seq![']'] + y)[0] == code_text(d[0].hash@, d[0].used)[0]);
    } else if d.len() == 0 {
        lemma_code_items_front(c);
        assert((code_items(d) + seq![']'] + y)[0] == ']');
        assert((code_items(c) + seq![']'] + x)[0] == code_text(c[0].hash@, c[0].used)[0]);
    } else {
        lemma_code_items_front(c);
        lemma_code_items_front(d);
        let tc = if c.len() == 1 {
            seq![']'] + x
        } else {
            seq![','] + (code_items(c.drop_first()) + seq![']'] + x)
        };
        let td = if d.len() == 1 {
            seq![']'] + y
        } else {
            seq![','] + (code_items(d.drop_first()) + seq![']'] + y)
        };
        assert(code_items(c) + seq![']'] + x =~= code_text(c[0].hash@, c[0].used) + tc);
        assert(code_items(d) + seq![']'] + y =~= code_text(d[0].hash@, d[0].used) + td);
        lemma_read_code_text(c[0].hash@, c[0].used, tc, d[0].hash@, d[0].used, td);
        if c.len() == 1 && d.len() == 1 {
            lemma_split(seq![']'], x, seq![']'], y);
            assert(codes_view(c) =~= codes_view(d));
        } else if c.len() == 1 {
            assert(tc[0] == ']' && td[0] == ',');
        } else if d.len() == 1 {
            assert(tc[0] == ',' && td[0] == ']');
        } else {
            lemma_split(
                seq![','],
                code_items(c.drop_first()) + seq![']'] + x,
                seq![','],
                code_items(d.drop_first()) + seq![']'] + y,
            );
            lemma_read_code_items(c.drop_first(), x, d.drop_first(), y);
            assert(codes_view(c.drop_first()).len() == c.drop_first().len());
            assert(codes_view(d.drop_first()).len() == d.drop_first().len());
            assert(c.len() == d.len());
            assert forall|i: int| 0 <= i < c.len() implies codes_view(c)[i] == codes_view(d)[i] by {
                if i > 0 {
                    assert(codes_view(c)[i] == codes_view(c.drop_first())[i - 1]);
                    assert(codes_view(d)[i] == codes_view(d.drop_first())[i - 1]);
                }
            }
            assert(codes_view(c) =~= codes_view(d));
        }
    }
}

proof fn lemma_same_text(a: VaultMetadata, b: VaultMetadata)
    requires
        integrity_bytes(a) == integrity_bytes(b),
    ensures
        integrity_text(a) == integrity_text(b),
{
    broadcast use vstd::utf8::group_utf8_lib;

    assert(decode_utf8(encode_utf8(integrity_text(a))) == integrity_text(a));
    assert(decode_utf8(encode_utf8(integrity_text(b))) == integrity_text(b));
}

proof fn lemma_text_shape(m: VaultMetadata)
    ensures
        integrity_text(m) == ("{\"id\":\""@ + uuid_text(m.id) + "\",\"totp_enabled\":"@) + (
        bool_text(m.totp_enabled) + (",\"totp_secret_encrypted\":"@ + (json_secret(
            m.totp_secret_encrypted,
        ) + (",\"recovery_codes\":"@ + (json_codes(m.recovery_codes@) + seq!['}']))))),
{
    let p1 = "{\"id\":\""@ + uuid_text(m.id) + "\",\"totp_enabled\":"@;
    let b = bool_text(m.totp_enabled);
    let p2 = ",\"totp_secret_encrypted\":"@;
    let sec = json_secret(m.totp_secret_encrypted);
    let p3 = ",\"recovery_codes\":"@;
    let codes = json_codes(m.recovery_codes@);
    assert(integrity_text(m) == p1 + b + p2 + sec + p3 + codes + seq!['}']);
    assert(p1 + b + p2 + sec + p3 + codes + seq!['}'] =~= p1 + (b + (p2 + (sec + (p3 + (codes
        + seq!['}']))))));
}

proof fn lemma_read_secret(a: Option<Vec<u8>>, x: Seq<char>, b: Option<Vec<u8>>, y: Seq<char>)
    requires
        json_secret(a) + x == json_secret(b) + y,
    ensures
        secret_view(a) == secret_view(b),
        x == y,
{
    reveal_strlit("null");
    match (a, b) {
        (Some(v), Some(w)) => {
            lemma_read_json_bytes(v@, x, w@, y);
        },
        (None, None) => {
            lemma_split(json_secret(a), x, json_secret(b), y);
        },
        (Some(v), None) => {
            assert((json_secret(a) + x)[0] == '[');
            assert((json_secret(b) + y)[0] == 'n');
        },
        (None, Some(w)) => {
            assert((json_secret(a) + x)[0] == 'n');
            assert((json_secret(b) + y)[0] == '[');
        },
    }
}

proof fn lemma_read_json_codes(ca: Seq<RecoveryCode>, cb: Seq<RecoveryCode>)
    requires
        json_codes(ca) + seq!['}'] == json_codes(cb) + seq!['}'],
    ensures
        codes_view(ca) == codes_view(cb),
{
    assert(json_codes(ca) + seq!['}'] =~= seq!['['] + (code_items(ca) + seq![']'] + seq!['}']));
    assert(json_codes(cb) + seq!['}'] =~= seq!['['] + (code_items(cb) + seq![']'] + seq!['}']));
    lemma_split(
        seq!['['],
        code_items(ca) + seq![']'] + seq!['}'],
        seq!['['],
        code_items(cb) + seq![']'] + seq!['}'],
    );
    lemma_read_code_items(ca, seq!['}'], cb, seq!['}']);
}

/// The integrity message pins down every field it covers: two metadata
/// values whose messages are equal have the same vault id, the same 2FA
/// flag, the same encrypted TOTP secret and the same recovery codes, used
/// or not, in the same order. So no hand edit of `vault.json` that turns
/// 2FA off, swaps the secret, injects a recovery code, revives a used one
/// or moves the metadata to another vault id leaves the authenticated
/// bytes, and hence the expected tag, unchanged.
pub proof fn protected_fields_are_authenticated(a: VaultMetadata, b: VaultMetadata)
    requires
        integrity_bytes(a) == integrity_bytes(b),
    ensures
        a.id == b.id,
        a.totp_enabled == b.totp_enabled,
        secret_view(a.totp_secret_encrypted) == secret_view(b.totp_secret_encrypted),
        codes_view(a.recovery_codes@) == codes_view(b.recovery_codes@),
{
    lemma_same_text(a, b);
    lemma_text_shape(a);
    lemma_text_shape(b);
    lemma_uuid_text_len(a.id);
    lemma_uuid_text_len(b.id);
    let open = "{\"id\":\""@;
    let close = "\",\"totp_enabled\":"@;
    let p1a = open + uuid_text(a.id) + close;
    let p1b = open + uuid_text(b.id) + close;
    let p2 = ",\"totp_secret_encrypted\":"@;
    let p3 = ",\"recovery_codes\":"@;
    let ra = p3 + (json_codes(a.recovery_codes@) + seq!['}']);
    let rb = p3 + (json_codes(b.recovery_codes@) + seq!['}']);
    let sa = json_secret(a.totp_secret_encrypted) + ra;
    let sb = json_secret(b.totp_secret_encrypted) + rb;
    lemma_split(p1a, bool_text(a.totp_enabled) + (p2 + sa), p1b, bool_text(b.totp_enabled) + (p2 + sb));
    lemma_split(open + uuid_text(a.id), close, open + uuid_text(b.id), close);
    lemma_split(open, uuid_text(a.id), open, uuid_text(b.id));
    lemma_uuid_text_injective(a.id, b.id);
    lemma_read_bool(a.totp_enabled, p2 + sa, b.totp_enabled, p2 + sb);
    lemma_split(p2, sa, p2, sb);
    lemma_read_secret(a.totp_secret_encrypted, ra, b.totp_secret_encrypted, rb);
    lemma_split(p3, json_codes(a.recovery_codes@) + seq!['}'], p3, json_codes(b.recovery_codes@) + seq!['}']);
    lemma_read_json_codes(a.recovery_codes@, b.recovery_codes@);
}

pub open spec fn pow16(c: nat) -> nat
    decreases c,
{
    if c == 0 {
        1
    } else {
        16 * pow16((c - 1) as nat)
    }
}

proof fn lemma_pow16_positive(c: nat)
    ensures
        pow16(c) > 0,
    decreases c,
{
    if c > 0 {
        lemma_pow16_positive((c - 1) as nat);
    }
}

proof fn lemma_hex_char_injective(a: nat, b: nat)
    requires
        a < 16,
        b < 16,
        hex_char(a) == hex_char(b),
    ensures
        a == b,
{
    assert(hex_char(a) as u32 == if a < 10 { a + 48 } else { a + 87 });
    assert(hex_char(b) as u32 == if b < 10 { b + 48 } else { b + 87 });
}

/// Equal hexadecimal digits give equal numbers, up to the digits shown.
proof fn lemma_hex_digits_injective(n: nat, m: nat, c: nat)
    requires
        hex_digits(n, c) == hex_digits(m, c),
    ensures
        n % pow16(c) == m % pow16(c),
    decreases c,
{
    if c > 0 {
        let hn = hex_digits(n, c);
        let hm = hex_digits(m, c);
        lemma_hex_digits_len(n / 16, (c - 1) as nat);
        lemma_hex_digits_len(m / 16, (c - 1) as nat);
        assert(hn.drop_last() == hex_digits(n / 16, (c - 1) as nat));
        assert(hm.drop_last() == hex_digits(m / 16, (c - 1) as nat));
        lemma_hex_digits_injective(n / 16, m / 16, (c - 1) as nat);
        assert(hn.last() == hex_char(n % 16));
        assert(hm.last() == hex_char(m % 16));
        lemma_hex_char_injective(n % 16, m % 16);
        lemma_pow16_positive((c - 1) as nat);
        vstd::arithmetic::div_mod::lemma_breakdown(n as int, 16, pow16((c - 1) as nat) as int);
        vstd::arithmetic::div_mod::lemma_breakdown(m as int, 16, pow16((c - 1) as nat) as int);
    } else {
        assert(n % 1 == 0 && m % 1 == 0);
    }
}

/// The text of an identifier determines it.
proof fn lemma_uuid_text_injective(a: u128, b: u128)
    requires
        uuid_text(a) == uuid_text(b),
    ensures
        a == b,
{
    let da = hex_digits(a as nat, 32);
    let db = hex_digits(b as nat, 32);
    lemma_hex_digits_len(a as nat, 32);
    lemma_hex_digits_len(b as nat, 32);
    let ta = uuid_text(a);
    let tb = uuid_text(b);
    assert forall|i: int| 0 <= i < 32 implies da[i] == db[i] by {
        let k = if i < 8 {
            i
        } else if i < 12 {
            i + 1
        } else if i < 16 {
            i + 2
        } else if i < 20 {
            i + 3
        } else {
            i + 4
        };
        assert(ta[k] == da[i]);
        assert(tb[k] == db[i]);
    }
    assert(da =~= db);
    lemma_hex_digits_injective(a as nat, b as nat, 32);
    assert(pow16(32) == 0x1_0000_0000_0000_0000_0000_0000_0000_0000) by {
        reveal_with_fuel(pow16, 33);
    }
    vstd::arithmetic::div_mod::lemma_small_mod(a as nat, pow16(32));
    vstd::arithmetic::div_mod::lemma_small_mod(b as nat, pow16(32));
}

} // verus!
