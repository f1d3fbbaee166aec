use edison_note::presence::{color_from_digest, generate_user_color};

#[test]
fn color_is_made_of_the_first_three_bytes() {
    assert_eq!(color_from_digest(0, 0, 0), "hsl(0, 70%, 40%)");
    assert_eq!(color_from_digest(255, 255, 255), "hsl(360, 100%, 60%)");
    assert_eq!(color_from_digest(128, 128, 128), "hsl(180, 85%, 50%)");
    assert_eq!(color_from_digest(7, 9, 13), "hsl(9, 71%, 41%)");
    assert_eq!(color_from_digest(183, 254, 1), "hsl(258, 99%, 40%)");
}

#[test]
fn user_color_comes_from_the_digest_of_the_id() {
    assert_eq!(generate_user_color("user1"), "hsl(50, 93%, 57%)");
    assert_eq!(generate_user_color("test_user_123"), "hsl(48, 84%, 44%)");
    assert_eq!(generate_user_color("alice"), "hsl(139, 85%, 57%)");
    assert_eq!(generate_user_color(""), "hsl(299, 73%, 50%)");
}

#[test]
fn user_color_is_stable() {
    assert_eq!(generate_user_color("someone"), generate_user_color("someone"));
}

#[test]
fn digest_in_hexadecimal() {
    use_md5_hex("", "d41d8cd98f00b204e9800998ecf8427e");
    use_md5_hex("user1", "24c9e15e52afc47c225b757e7bee1f9d");
    use_md5_hex(
        "The quick brown fox jumps over the lazy dog",
        "9e107d9d372bb6826bd81d3542a419d6",
    );
}

fn use_md5_hex(text: &str, expected: &str) {
    assert_eq!(edison_note::presence::md5_hex(text), expected);
}
