//! Names for manifest files: readable, stable across runs, and different for
//! different devices.

use crate::utils::text::{lowercased, replace_all, replaced, to_lowercase};
use vstd::prelude::*;
use vstd::string::*;

verus! {

/// How many bytes of the hash a slug carries, two characters for each.
pub const FINGERPRINT_BYTES: usize = 4;

/// The BLAKE3 hash of some bytes, as `blake3::hash` gives it.
pub uninterp spec fn blake3_hash(input: Seq<u8>) -> Seq<u8>;

/// `blake3::hash`: the hash of `input`, 32 bytes long. The bytes are named,
/// not described; their number is stated.
#[verifier::external_body]
fn hash_bytes(input: &[u8]) -> (r: Vec<u8>)
    ensures
        r@ == blake3_hash(input@),
        r@.len() == 32,
{
    blake3::hash(input).as_bytes().to_vec()
}

/// The hexadecimal digit for a number below sixteen, in lower case.
pub open spec fn hex_digit(d: nat) -> char {
    if d == 0 {
        '0'
    } else if d == 1 {
        '1'
    } else if d == 2 {
        '2'
    } else if d == 3 {
        '3'
    } else if d == 4 {
        '4'
    } else if d == 5 {
        '5'
    } else if d == 6 {
        '6'
    } else if d == 7 {
        '7'
    } else if d == 8 {
        '8'
    } else if d == 9 {
        '9'
    } else if d == 10 {
        'a'
    } else if d == 11 {
        'b'
    } else if d == 12 {
        'c'
    } else if d == 13 {
        'd'
    } else if d == 14 {
        'e'
    } else {
        'f'
    }
}

/// Bytes in hexadecimal: two digits for each byte, the high half first.
pub open spec fn hex(bytes: Seq<u8>) -> Seq<char>
    decreases bytes.len(),
{
    if bytes.len() == 0 {
        Seq::empty()
    } else {
        hex(bytes.drop_last()).push(hex_digit(bytes.last() as nat / 16)).push(
            hex_digit(bytes.last() as nat % 16),
        )
    }
}

fn hex_digit_text(d: u8) -> (r: &'static str)
    requires
        d < 16,
    ensures
        r@ == seq![hex_digit(d as nat)],
{
    proof {
        reveal_strlit("0");
        reveal_strlit("1");
        reveal_strlit("2");
        reveal_strlit("3");
        reveal_strlit("4");
        reveal_strlit("5");
        reveal_strlit("6");
        reveal_strlit("7");
        reveal_strlit("8");
        reveal_strlit("9");
        reveal_strlit("a");
        reveal_strlit("b");
        reveal_strlit("c");
        reveal_strlit("d");
        reveal_strlit("e");
        reveal_strlit("f");
    }
    let r = if d == 0 {
        "0"
    } else if d == 1 {
        "1"
    } else if d == 2 {
        "2"
    } else if d == 3 {
        "3"
    } else if d == 4 {
        "4"
    } else if d == 5 {
        "5"
    } else if d == 6 {
        "6"
    } else if d == 7 {
        "7"
    } else if d == 8 {
        "8"
    } else if d == 9 {
        "9"
    } else if d == 10 {
        "a"
    } else if d == 11 {
        "b"
    } else if d == 12 {
        "c"
    } else if d == 13 {
        "d"
    } else if d == 14 {
        "e"
    } else {
        "f"
    };
    assert(r@ =~= seq![hex_digit(d as nat)]);
    r
}

/// Writes the first `count` of the bytes behind `out` in hexadecimal.
fn push_hex(out: &mut String, bytes: &Vec<u8>, count: usize)
    requires
        count <= bytes.len(),
    ensures
        final(out)@ == old(out)@ + hex(bytes@.take(count as int)),
{
    let mut i: usize = 0;
    assert(out@ =~= old(out)@ + hex(bytes@.take(0)));
    while i < count
        invariant
            i <= count <= bytes.len(),
            out@ == old(out)@ + hex(bytes@.take(i as int)),
        decreases count - i,
    {
        let b = bytes[i];
        out.append(hex_digit_text(b / 16));
        out.append(hex_digit_text(b % 16));
        proof {
            assert(bytes@.take(i + 1).drop_last() =~= bytes@.take(i as int));
            assert(bytes@.take(i + 1).last() == b);
            assert(out@ =~= old(out)@ + hex(bytes@.take(i + 1)));
        }
        i += 1;
    }
}

/// The text that is hashed for a label in a context: the two with `::`
/// between them.
pub open spec fn fingerprint_input(label: Seq<char>, context: Seq<char>) -> Seq<char> {
    label + "::"@ + context
}

/// The fingerprint of a label in a context: the first bytes of the hash of
/// the two, in hexadecimal.
pub open spec fn fingerprint(label: Seq<char>, context: Seq<char>) -> Seq<char> {
    hex(
        blake3_hash(vstd::utf8::encode_utf8(fingerprint_input(label, context))).take(
            FINGERPRINT_BYTES as int,
        ),
    )
}

/// The readable part of a slug: the label in lower case, with a hyphen for
/// each space and each slash.
pub open spec fn slug_label(label: Seq<char>) -> Seq<char> {
    replaced(replaced(lowercased(label), " "@, "-"@), "/"@, "-"@)
}

/// The slug of a label in a context: the readable part, a hyphen, the
/// fingerprint.
pub open spec fn slug(label: Seq<char>, context: Seq<char>) -> Seq<char> {
    slug_label(label) + "-"@ + fingerprint(label, context)
}

/// A name for `label` that is the same on every run and differs between
/// contexts: the label made readable, then a short fingerprint of label and
/// context together. The fingerprint is taken of the label as given, before
/// it is made readable.
pub fn unique_slug(label: &str, context: &str) -> (r: String)
    ensures
        r@ == slug(label@, context@),
{
    let mut input = String::from_str(label);
    input.append("::");
    input.append(context);
    let hash = hash_bytes(input.as_str().as_bytes());
    let lower = to_lowercase(label);
    let spaced = replace_all(lower.as_str(), " ", "-");
    let mut out = replace_all(spaced.as_str(), "/", "-");
    out.append("-");
    push_hex(&mut out, &hash, FINGERPRINT_BYTES);
    out
}

/// A fingerprint has two characters for each of its bytes.
pub proof fn lemma_hex_len(bytes: Seq<u8>)
    ensures
        hex(bytes).len() == 2 * bytes.len(),
    decreases bytes.len(),
{
    if bytes.len() > 0 {
        lemma_hex_len(bytes.drop_last());
    }
}

} // verus!
