use kebisafe::api::{ApiAuthorizationMiddleware, Authorization};
use kebisafe::application::{Arguments, SubCommand};
use kebisafe::text::{bytes_as_str, split_ascii_whitespace, str_eq};
use kebisafe::web::multipart::{classify_field, InvalidText, MultipartData};
use kebisafe::web::FormPreparseMiddleware;

fn words(text: &str) -> Vec<String> {
    split_ascii_whitespace(text).into_iter().map(|w| w.into_iter().collect()).collect()
}

#[test]
fn call_with_the_token_is_granted() {
    let middleware = ApiAuthorizationMiddleware::new("s3cret");
    assert_eq!(middleware.authorize(Some("Bearer s3cret")), Authorization::Granted);
    assert_eq!(middleware.authorize(Some("  Bearer \t s3cret\r\n")), Authorization::Granted);
    assert_eq!(middleware.authorize(Some("Bearer s3cret and more")), Authorization::Granted);
}

#[test]
fn call_with_another_token_fails() {
    let middleware = ApiAuthorizationMiddleware::new("s3cret");
    for header in [
        "Bearer s3cre", "Bearer s3cret0", "bearer s3cret", "Basic s3cret", "s3cret", "Bearer",
        "", "   ", "Bearers3cret", "s3cret Bearer", "Bearer S3CRET",
    ] {
        assert_eq!(middleware.authorize(Some(header)), Authorization::Failed, "{header:?}");
    }
}

#[test]
fn call_without_header_needs_authorization() {
    let middleware = ApiAuthorizationMiddleware::new("s3cret");
    assert_eq!(middleware.authorize(None), Authorization::Needed);
}

#[test]
fn empty_token_is_never_carried() {
    let middleware = ApiAuthorizationMiddleware::new("");
    assert_eq!(middleware.authorize(Some("Bearer ")), Authorization::Failed);
    assert_eq!(middleware.authorize(Some("Bearer x")), Authorization::Failed);
}

#[test]
fn refusals_have_their_message() {
    assert_eq!(Authorization::Granted.message(), None);
    assert_eq!(Authorization::Failed.message(), Some("Authorization failed"));
    assert_eq!(Authorization::Needed.message(), Some("Authorization needed"));
}

#[test]
fn words_are_split_at_ascii_whitespace() {
    assert_eq!(words("a bc  def"), ["a", "bc", "def"]);
    assert_eq!(words(" \t\n\x0c\r"), Vec::<String>::new());
    assert_eq!(words(""), Vec::<String>::new());
    assert_eq!(words("one"), ["one"]);
    assert_eq!(words("\ttab\nline\x0cfeed\rreturn "), ["tab", "line", "feed", "return"]);
    assert_eq!(words("no\u{a0}break \u{2003}wide"), ["no\u{a0}break", "\u{2003}wide"]);
}

#[test]
fn words_agree_with_the_standard_library() {
    for text in ["", " ", "a", " a", "a ", "a b", "a  b\tc\n", "\x0b v", "x\u{85}y z", "  leading and trailing  "] {
        let expected: Vec<&str> = text.split_ascii_whitespace().collect();
        assert_eq!(words(text), expected, "{text:?}");
    }
}

#[test]
fn strings_are_compared_by_their_characters() {
    assert!(str_eq("", ""));
    assert!(str_eq("abc", "abc"));
    assert!(!str_eq("abc", "abd"));
    assert!(!str_eq("abc", "ab"));
    assert!(!str_eq("abc", "ABC"));
}

#[test]
fn text_field_is_its_text() {
    assert_eq!(MultipartData::Text("hello".to_string()).as_str(), Some("hello"));
    assert_eq!(MultipartData::Text(String::new()).as_str(), Some(""));
}

#[test]
fn bytes_field_is_text_where_it_is_utf8() {
    assert_eq!(MultipartData::Bytes(b"PATCH".to_vec()).as_str(), Some("PATCH"));
    assert_eq!(MultipartData::Bytes("héllo".as_bytes().to_vec()).as_str(), Some("héllo"));
    assert_eq!(MultipartData::Bytes(vec![0xff, 0xfe]).as_str(), None);
    assert_eq!(MultipartData::Bytes(vec![0xc3]).as_str(), None);
    assert_eq!(MultipartData::Bytes(vec![]).as_str(), Some(""));
}

#[test]
fn file_field_has_no_text() {
    assert_eq!(MultipartData::File("a.txt".to_string(), b"text".to_vec()).as_str(), None);
}

#[test]
fn bytes_are_text_where_they_are_utf8() {
    assert_eq!(bytes_as_str(b"plain"), Some("plain"));
    assert_eq!(bytes_as_str("日本語".as_bytes()), Some("日本語"));
    assert_eq!(bytes_as_str(&[0x80]), None);
    assert_eq!(bytes_as_str(&[0xed, 0xa0, 0x80]), None);
}

#[test]
fn part_with_file_name_is_a_file() {
    let field = classify_field(Some("cat.png".to_string()), Some("image/png"), vec![1, 2]);
    assert_eq!(field, Ok(MultipartData::File("cat.png".to_string(), vec![1, 2])));
    let field = classify_field(Some("notes".to_string()), None, vec![0xff]);
    assert_eq!(field, Ok(MultipartData::File("notes".to_string(), vec![0xff])));
}

#[test]
fn part_of_plain_text_or_no_type_is_text() {
    let field = classify_field(None, Some("text/plain"), b"true".to_vec());
    assert_eq!(field, Ok(MultipartData::Text("true".to_string())));
    let field = classify_field(None, None, b"DELETE".to_vec());
    assert_eq!(field, Ok(MultipartData::Text("DELETE".to_string())));
}

#[test]
fn text_part_that_is_not_utf8_is_refused() {
    assert_eq!(classify_field(None, Some("text/plain"), vec![0xff]), Err(InvalidText));
    assert_eq!(classify_field(None, None, vec![0xc0, 0x80]), Err(InvalidText));
}

#[test]
fn part_of_another_type_is_bytes() {
    let field = classify_field(None, Some("application/octet-stream"), vec![0xff]);
    assert_eq!(field, Ok(MultipartData::Bytes(vec![0xff])));
    let field = classify_field(None, Some("text/html"), b"<p>".to_vec());
    assert_eq!(field, Ok(MultipartData::Bytes(b"<p>".to_vec())));
}

#[test]
fn missing_subcommand_means_serve() {
    assert_eq!(Arguments { subcommand: None }.command(), SubCommand::Serve);
    assert_eq!(Arguments { subcommand: Some(SubCommand::Serve) }.command(), SubCommand::Serve);
    assert_eq!(
        Arguments { subcommand: Some(SubCommand::GeneratePassword) }.command(),
        SubCommand::GeneratePassword
    );
}

#[test]
fn preparse_middleware_is_a_unit() {
    let _middleware = FormPreparseMiddleware;
}
