use rucene::analyser::Analyser;
use rucene::character_filters::CharacterFilter;
use rucene::document::AnalysedDocument;
use rucene::index_document::IndexDocument;
use rucene::token::Token;
use rucene::token_filters::TokenFilter;
use rucene::tokenizers::Tokenizer;

fn init_analyser() -> Analyser {
    Analyser::new(
        vec![CharacterFilter::Html],
        Tokenizer::Standard,
        vec![TokenFilter::Lowercase],
    )
}

#[test]
fn can_analyse() {
    let analyser = init_analyser();
    let document = IndexDocument::new(
        0,
        String::from("<h1>The Brown’s fiftieth wedding anniversary, at Café Olé.</h1>"),
    );

    let expected_doc = AnalysedDocument::new(
        0,
        vec![
            Token::new("the".to_string()),
            Token::new("brown’s".to_string()),
            Token::new("fiftieth".to_string()),
            Token::new("wedding".to_string()),
            Token::new("anniversary".to_string()),
            Token::new("at".to_string()),
            Token::new("café".to_string()),
            Token::new("olé".to_string()),
        ],
    );

    let result = analyser.analyse(&document);

    assert_eq!(result, expected_doc);
}

#[test]
fn html_char_filter() {
    let source = "<h1>The Brown’s fiftieth wedding anniversary, at Café Olé.</h1>";
    let expected = "The Brown’s fiftieth wedding anniversary, at Café Olé.";

    let filtered = CharacterFilter::Html.filter(&String::from(source));

    assert_eq!(filtered, expected);
}

#[test]
fn lowercase_token_filter() {
    let mut source = vec![
        Token::new("The".to_string()),
        Token::new("Brown’s".to_string()),
        Token::new("fiftieth".to_string()),
        Token::new("wedding".to_string()),
        Token::new("anniversary".to_string()),
        Token::new("at".to_string()),
        Token::new("Cafe".to_string()),
        Token::new("Ole".to_string()),
    ];

    let expected = vec![
        Token::new("the".to_string()),
        Token::new("brown’s".to_string()),
        Token::new("fiftieth".to_string()),
        Token::new("wedding".to_string()),
        Token::new("anniversary".to_string()),
        Token::new("at".to_string()),
        Token::new("cafe".to_string()),
        Token::new("ole".to_string()),
    ];

    TokenFilter::Lowercase.filter(&mut source);

    assert_eq!(source, expected);
}

#[test]
fn standard_tokenizer() {
    let source = "The Brown’s fiftieth wedding anniversary, at Cafe Ole.";
    let expected = vec![
        Token::new("The".to_string()),
        Token::new("Brown’s".to_string()),
        Token::new("fiftieth".to_string()),
        Token::new("wedding".to_string()),
        Token::new("anniversary".to_string()),
        Token::new("at".to_string()),
        Token::new("Cafe".to_string()),
        Token::new("Ole".to_string()),
    ];

    let result = Tokenizer::Standard.tokenize(&source.to_string());

    assert_eq!(result, expected);
}

#[test]
fn tokenizer_drops_consecutive_delimiters() {
    let result = Tokenizer::Standard.tokenize(&"--one,, two..three- ".to_string());
    let expected = vec![
        Token::new("one".to_string()),
        Token::new("two".to_string()),
        Token::new("three".to_string()),
    ];
    assert_eq!(result, expected);
}

#[test]
fn tokenizer_empty_input() {
    let result = Tokenizer::Standard.tokenize(&String::new());
    assert_eq!(result, Vec::<Token>::new());
}

#[test]
fn tokenizer_only_delimiters() {
    let result = Tokenizer::Standard.tokenize(&" ,.- \t\n".to_string());
    assert_eq!(result, Vec::<Token>::new());
}

#[test]
fn html_filter_keeps_unclosed_angle_bracket() {
    let filtered = CharacterFilter::Html.filter(&"a<b".to_string());
    assert_eq!(filtered, "a<b");
}

#[test]
fn html_filter_strips_through_first_close() {
    let filtered = CharacterFilter::Html.filter(&"<<em>bold</em>!".to_string());
    assert_eq!(filtered, "bold!");
}

#[test]
fn html_filter_empty_input() {
    let filtered = CharacterFilter::Html.filter(&String::new());
    assert_eq!(filtered, "");
}

#[test]
fn lowercase_keeps_length_and_order() {
    let mut tokens = vec![
        Token::new("The".to_string()),
        Token::new("Cafe".to_string()),
    ];
    TokenFilter::Lowercase.filter(&mut tokens);
    assert_eq!(tokens.len(), 2);
    assert_eq!(tokens[0], Token::new("the".to_string()));
    assert_eq!(tokens[1], Token::new("cafe".to_string()));
}

#[test]
fn standard_analyser_configuration() {
    let analyser = Analyser::standard();
    let document = IndexDocument::new(3, "Back to the FUTURE".to_string());
    let analysed = analyser.analyse(&document);
    let expected = AnalysedDocument::new(
        3,
        vec![
            Token::new("back".to_string()),
            Token::new("to".to_string()),
            Token::new("the".to_string()),
            Token::new("future".to_string()),
        ],
    );
    assert_eq!(analysed, expected);
}
