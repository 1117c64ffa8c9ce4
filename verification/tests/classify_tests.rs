//! The classifier's fixed scenarios and edge cases.
use copas_core::classify::detect_category;
use copas_core::models::Category;

#[test]
fn email_address_is_email() {
    assert_eq!(detect_category(b"foo@bar.com"), Category::Email);
}

#[test]
fn https_url_is_link() {
    assert_eq!(detect_category(b"https://example.com"), Category::Link);
}

#[test]
fn rust_snippet_is_code() {
    assert_eq!(detect_category(b"fn main() { let x = 1; }"), Category::Code);
}

#[test]
fn formatted_number_is_phone() {
    assert_eq!(detect_category(b"+1 (555) 123-4567"), Category::Phone);
}

#[test]
fn plain_words_are_text() {
    assert_eq!(detect_category(b"hello world"), Category::Text);
}

#[test]
fn empty_is_text() {
    assert_eq!(detect_category(b""), Category::Text);
}

#[test]
fn whitespace_only_is_text() {
    assert_eq!(detect_category(b"  \t\n  "), Category::Text);
}

#[test]
fn www_prefix_is_link() {
    assert_eq!(detect_category(b"www.example.com"), Category::Link);
}

#[test]
fn url_with_surrounding_text_is_loose_link() {
    assert_eq!(detect_category(b"see https://example.com for more"), Category::Link);
}

#[test]
fn url_inside_code_stays_code() {
    assert_eq!(
        detect_category(b"let u = fetch(\"http://example.com\");"),
        Category::Code
    );
}

#[test]
fn two_at_signs_are_not_email() {
    assert_eq!(detect_category(b"a@b@c.example"), Category::Text);
}

#[test]
fn missing_dot_after_at_is_not_email() {
    assert_eq!(detect_category(b"user@localhost"), Category::Text);
}

#[test]
fn six_digits_are_too_short_for_phone() {
    assert_eq!(detect_category(b"123-456"), Category::Text);
}

#[test]
fn sixteen_digits_are_too_long_for_phone() {
    assert_eq!(detect_category(b"1234567890123456"), Category::Text);
}

#[test]
fn one_code_indicator_is_not_code() {
    assert_eq!(detect_category(b"let it be"), Category::Text);
}

#[test]
fn surrounding_whitespace_is_trimmed_before_matching() {
    assert_eq!(detect_category(b"   https://example.com  "), Category::Link);
    assert_eq!(detect_category(b"\tfoo@bar.com\n"), Category::Email);
}

#[test]
fn url_with_inner_whitespace_is_not_a_strict_link() {
    // The strict rule needs a whitespace-free candidate, but the loose
    // rule still notices the scheme anywhere in the raw text.
    assert_eq!(detect_category(b"https://exa mple.com"), Category::Link);
    assert_eq!(detect_category(b"www.exa mple.com"), Category::Text);
}
