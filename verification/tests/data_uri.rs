use mooncake::data_uri::{chars_of, replace, svg_data_uri};

fn replaced(text: &str, from: &str, to: &str) -> String {
    replace(&chars_of(text), from, to).into_iter().collect()
}

#[test]
fn chars_of_gives_every_character() {
    assert_eq!(chars_of(""), Vec::<char>::new());
    assert_eq!(chars_of("a€b"), vec!['a', '€', 'b']);
}

#[test]
fn replace_goes_from_left_to_right() {
    assert_eq!(replaced("a-b-c", "-", "+"), "a+b+c");
    assert_eq!(replaced("aaa", "aa", "b"), "ba");
    assert_eq!(replaced("aaaa", "aa", "b"), "bb");
    assert_eq!(replaced("abc", "abcd", "x"), "abc");
    assert_eq!(replaced("abc", "abc", ""), "");
    assert_eq!(replaced("", "a", "b"), "");
    assert_eq!(replaced("abc", "", "x"), "abc");
    assert_eq!(replaced("%", "%", "%25"), "%25");
    assert_eq!(replaced("xx> <yy> <", "> <", "><"), "xx><yy><");
    for (text, from, to) in [("a> <b> <c", "> <", "><"), ("50% of 100%", "%", "%25"), ("€uro", "€", "E")] {
        assert_eq!(replaced(text, from, to), text.replace(from, to));
    }
}

#[test]
fn data_uri_of_a_small_image() {
    assert_eq!(
        svg_data_uri("<svg a=\"1\"> <g/> </svg>".to_string()),
        "data:image/svg+xml;charset=UTF-8,%3csvg a='1'%3e%3cg/%3e%3c/svg%3e"
    );
}

#[test]
fn data_uri_escapes_each_special_character() {
    assert_eq!(
        svg_data_uri("a{b: 50%; }#c|d^e`f@g".to_string()),
        "data:image/svg+xml;charset=UTF-8,a%7bb: 50%25;%7d%23c%7cd%5ee%60f%40g"
    );
    assert_eq!(svg_data_uri(String::new()), "data:image/svg+xml;charset=UTF-8,");
    assert_eq!(svg_data_uri("%3c".to_string()), "data:image/svg+xml;charset=UTF-8,%253c");
    assert_eq!(svg_data_uri("plain text".to_string()), "data:image/svg+xml;charset=UTF-8,plain text");
}

#[test]
fn escaped_markup_holds_no_reserved_character() {
    let reserved = ['<', '>', '"', '#', '{', '}', '|', '^', '`', '@'];
    let markup = "<svg a=\"#f00\"> <style>p { x: y; } q|r^s`t@u</style> <b/> </svg>{}<<>>@@";
    let uri = svg_data_uri(markup.to_string());
    let escaped = uri.strip_prefix("data:image/svg+xml;charset=UTF-8,").unwrap();
    assert!(escaped.chars().all(|c| !reserved.contains(&c)));
    assert_eq!(
        escaped,
        "%3csvg a='%23f00'%3e%3cstyle%3ep %7b x: y;%7d q%7cr%5es%60t%40u%3c/style%3e%3cb/%3e%3c/svg%3e%7b%7d%3c%3c%3e%3e%40%40"
    );
}
