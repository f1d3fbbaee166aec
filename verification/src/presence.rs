//! Presence of a participant: who they are, where their caret is, and the
//! colour they are shown in.

use vstd::prelude::*;

verus! {

/// The MD5 digest of the UTF-8 bytes of a text.
pub uninterp spec fn md5_of(text: Seq<char>) -> Seq<u8>;

/// `md5::compute` on the UTF-8 bytes of `text`. The digest depends on the
/// text alone; which bytes it holds is not stated here.
#[verifier::external_body]
fn md5_digest(text: &str) -> (digest: [u8; 16])
    ensures
        digest@ == md5_of(text@),
{
    md5::compute(text).0
}

/// The character for one decimal digit.
pub open spec fn digit_char(d: nat) -> char {
    if d == 0 {
        '0'
    } else if d == 1 {
        '1'
    } else if d == 2 {
        '2'
    } else if d == 3 {
        '3'
    } else if d == 4 {
        '4'
    } else if d == 5 {
        '5'
    } else if d == 6 {
        '6'
    } else if d == 7 {
        '7'
    } else if d == 8 {
        '8'
    } else {
        '9'
    }
}

/// A number in decimal, without leading zeros.
pub open spec fn decimal_text(n: nat) -> Seq<char>
    decreases n,
{
    if n < 10 {
        seq![digit_char(n)]
    } else {
        decimal_text(n / 10).push(digit_char(n % 10))
    }
}

/// Hue in degrees for the first byte of a digest: the byte's share of 360.
pub open spec fn hue_of(byte: u8) -> nat {
    (byte as nat * 360) / 255
}

/// Saturation in percent for the second byte of a digest, from 70 to 100.
pub open spec fn saturation_of(byte: u8) -> nat {
    70 + (byte as nat * 30) / 255
}

/// Lightness in percent for the third byte of a digest, from 40 to 60.
pub open spec fn lightness_of(byte: u8) -> nat {
    40 + (byte as nat * 20) / 255
}

/// The colour `hsl(H, S%, L%)` for the first three bytes of a digest.
pub open spec fn color_text(b0: u8, b1: u8, b2: u8) -> Seq<char> {
    "hsl("@ + decimal_text(hue_of(b0)) + ", "@ + decimal_text(saturation_of(b1)) + "%, "@
        + decimal_text(lightness_of(b2)) + "%)"@
}

/// The display colour of the user with this id.
pub open spec fn user_color_text(user_id: Seq<char>) -> Seq<char> {
    color_text(md5_of(user_id)[0], md5_of(user_id)[1], md5_of(user_id)[2])
}

fn digit(d: u32) -> (c: char)
    requires
        d < 10,
    ensures
        c == digit_char(d as nat),
{
    if d == 0 {
        '0'
    } else if d == 1 {
        '1'
    } else if d == 2 {
        '2'
    } else if d == 3 {
        '3'
    } else if d == 4 {
        '4'
    } else if d == 5 {
        '5'
    } else if d == 6 {
        '6'
    } else if d == 7 {
        '7'
    } else if d == 8 {
        '8'
    } else {
        '9'
    }
}

/// Appends `n` in decimal to `out`.
fn push_decimal(out: &mut String, n: u32)
    ensures
        final(out)@ == old(out)@ + decimal_text(n as nat),
    decreases n,
{
    if n >= 10 {
        push_decimal(out, n / 10);
    }
    out.push(digit(n % 10));
    proof {
        if n >= 10 {
            assert(out@ =~= old(out)@ + decimal_text(n as nat));
        } else {
            assert(out@ =~= old(out)@ + decimal_text(n as nat));
        }
    }
}

/// The colour for the first three bytes of a digest, as `hsl(H, S%, L%)`:
/// a hue from 0 to 360, a saturation from 70% to 100%, a lightness from 40%
/// to 60%.
pub fn color_from_digest(b0: u8, b1: u8, b2: u8) -> (color: String)
    ensures
        color@ == color_text(b0, b1, b2),
{
    let hue: u32 = (b0 as u32 * 360) / 255;
    let saturation: u32 = 70 + (b1 as u32 * 30) / 255;
    let lightness: u32 = 40 + (b2 as u32 * 20) / 255;
    let mut color = String::new();
    color.append("hsl(");
    push_decimal(&mut color, hue);
    color.append(", ");
    push_decimal(&mut color, saturation);
    color.append("%, ");
    push_decimal(&mut color, lightness);
    color.append("%)");
    assert(color@ =~= color_text(b0, b1, b2));
    color
}

/// The display colour of a user: the same for the same id, whenever and
/// wherever it is computed.
pub fn generate_user_color(user_id: &str) -> (color: String)
    ensures
        color@ == user_color_text(user_id@),
{
    let digest = md5_digest(user_id);
    color_from_digest(digest[0], digest[1], digest[2])
}

/// The character for one hexadecimal digit, in lower case.
pub open spec fn hex_char(d: nat) -> char {
    if d < 10 {
        digit_char(d)
    } else if d == 10 {
        'a'
    } else if d == 11 {
        'b'
    } else if d == 12 {
        'c'
    } else if d == 13 {
        'd'
    } else if d == 14 {
        'e'
    } else {
        'f'
    }
}

/// Bytes in hexadecimal, two lower-case digits for each.
pub open spec fn hex_text(bytes: Seq<u8>) -> Seq<char>
    decreases bytes.len(),
{
    if bytes.len() == 0 {
        Seq::<char>::empty()
    } else {
        hex_text(bytes.drop_last()).push(hex_char((bytes.last() / 16) as nat)).push(
            hex_char((bytes.last() % 16) as nat),
        )
    }
}

fn hex_digit(d: u8) -> (c: char)
    requires
        d < 16,
    ensures
        c == hex_char(d as nat),
{
    if d < 10 {
        digit(d as u32)
    } else if d == 10 {
        'a'
    } else if d == 11 {
        'b'
    } else if d == 12 {
        'c'
    } else if d == 13 {
        'd'
    } else if d == 14 {
        'e'
    } else {
        'f'
    }
}

/// The MD5 digest of a text in hexadecimal: the same for the same text,
/// whenever and wherever it is computed.
pub fn md5_hex(text: &str) -> (hex: String)
    ensures
        hex@ == hex_text(md5_of(text@)),
{
    let digest = md5_digest(text);
    let mut hex = String::new();
    let mut k: usize = 0;
    assert(digest@.take(0) =~= Seq::<u8>::empty());
    while k < 16
        invariant
            k <= 16,
            digest@.len() == 16,
            hex@ == hex_text(digest@.take(k as int)),
        decreases 16 - k,
    {
        let byte = digest[k];
        proof {
            assert(digest@.take(k + 1).drop_last() =~= digest@.take(k as int));
            assert(digest@.take(k + 1).last() == byte);
        }
        hex.push(hex_digit(byte / 16));
        hex.push(hex_digit(byte % 16));
        k = k + 1;
    }
    assert(digest@.take(16) =~= digest@);
    hex
}

} // verus!
