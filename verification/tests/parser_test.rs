use minitemplate::template::{Block, CondBlock, LoopBlock, Part, Str, Var};
use minitemplate::{parse, parse_str, Context, Parser, ParserError, SetValue, VarOpt};

fn text(s: &str) -> Part {
    Part::Str(Str { str: String::from(s) })
}

fn var(key: &str, opt: VarOpt) -> Part {
    Part::Var(Var { key: String::from(key), opt })
}

fn block(parts: Vec<Part>) -> Block {
    Block { parts }
}

fn error_of(source: &str) -> String {
    match parse_str(source) {
        Ok(_) => String::from("no error"),
        Err(e) => e.to_string(),
    }
}

#[test]
fn a_source_without_delimiters_renders_as_itself() {
    let sources = [
        "",
        "plain",
        "single { braces } and % signs # here\n",
        "two\nlines",
        "ends with a line feed\n",
        "\n\n\n",
        "carriage\r\nreturns\r\nstay",
        "h\u{e9}llo \u{3042}\u{1F600} w\u{f6}rld",
        "{ { } } % } # }",
    ];
    for source in sources {
        let t = parse_str(source).unwrap();
        let mut c = Context::new();
        assert_eq!(t.render(&mut c), source);
        c.is_def_blank = true;
        c.set("plain", "bound");
        assert_eq!(t.render(&mut c), source);
    }
}

#[test]
fn an_end_that_closes_nothing_is_an_error() {
    assert_eq!(error_of("{% end %}"), "Parse error at Line:1 Col:0. NoSuchElement");
    assert_eq!(
        error_of("a\nbc {% if x %}{% end %}{% end %}"),
        "Parse error at Line:2 Col:22. NoSuchElement"
    );
}

#[test]
fn an_else_outside_a_conditional_is_an_error() {
    assert_eq!(error_of("{% else %}"), "Parse error at Line:1 Col:0. `%}`");
    assert_eq!(
        error_of("{% for x in xs %}\n  {% else %}{% end %}"),
        "Parse error at Line:2 Col:2. `%}`"
    );
    assert_eq!(
        error_of("{% if a %}{% else %}{% else %}{% end %}"),
        "Parse error at Line:1 Col:20. `%}`"
    );
}

#[test]
fn a_malformed_statement_is_an_error_where_it_opens() {
    assert_eq!(error_of("{% for x %}"), "Parse error at Line:1 Col:0. `%}`");
    assert_eq!(error_of("ab {% if %}"), "Parse error at Line:1 Col:3. `%}`");
    assert_eq!(error_of("\n\n {% bogus %}"), "Parse error at Line:3 Col:1. `%}`");
    assert_eq!(error_of("{%\n\n%}"), "Parse error at Line:1 Col:0. `%}`");
}

#[test]
fn a_variable_without_a_key_is_an_error_where_it_opens() {
    assert_eq!(error_of("{{ }}"), "Parse error at Line:1 Col:0. `}}`");
    assert_eq!(error_of("x {{ ! }}"), "Parse error at Line:1 Col:2. `}}`");
}

#[test]
fn a_token_inside_a_token_is_an_error_where_it_stands() {
    assert_eq!(error_of("{{ a {{ b }}"), "Parse error at Line:1 Col:5. `{{`");
    assert_eq!(error_of("{{ a {% b %}"), "Parse error at Line:1 Col:5. `{%`");
    assert_eq!(error_of("{% if a\n  {{ b }}"), "Parse error at Line:2 Col:2. `{{`");
}

#[test]
fn a_closing_delimiter_without_its_opening_is_an_error() {
    assert_eq!(error_of("}}"), "Parse error at Line:1 Col:0. `}}`");
    assert_eq!(error_of("%}"), "Parse error at Line:1 Col:0. `%}`");
    assert_eq!(error_of("#}"), "Parse error at Line:1 Col:0. `#}`");
    assert_eq!(error_of("{{ a %}"), "Parse error at Line:1 Col:5. `%}`");
    assert_eq!(error_of("{% if a }}"), "Parse error at Line:1 Col:8. `}}`");
}

#[test]
fn a_column_counts_bytes() {
    assert_eq!(error_of("\u{e9} \u{e9} }}"), "Parse error at Line:1 Col:6. `}}`");
    assert_eq!(error_of("\u{3042}\u{1F600}#}"), "Parse error at Line:1 Col:7. `#}`");
}

#[test]
fn what_is_open_at_the_end_is_an_error() {
    assert_eq!(
        error_of("x\n{{ a"),
        "Parse error at end of text. Missing `}}` /From Line:2 Col:0 `{{`"
    );
    assert_eq!(
        error_of("x\ny {% if a"),
        "Parse error at end of text. Missing `%}` /From Line:2 Col:2 `{%`"
    );
    assert_eq!(
        error_of("{% for x in xs %}"),
        "Parse error at end of text. Missing `{% end %}` /From Line:1 `{% for`"
    );
    assert_eq!(
        error_of("{% if a %}\n{% else %}\n"),
        "Parse error at end of text. Missing `{% end %}` /From Line:2 `{% if`"
    );
    assert_eq!(
        error_of("{% if a %}\n{% for x in xs %}\n{#\n"),
        "Parse error at end of text. Missing `#}` /From Line:3 `{#`"
    );
    assert_eq!(
        error_of("{% if a %}{{ b"),
        "Parse error at end of text. Missing `}}` /From Line:1 Col:10 `{{`"
    );
}

#[test]
fn a_comment_hides_what_is_in_it() {
    let mut c = Context::new();
    let t = parse_str("a{# {{ x }} {% if %} }} %} {# inner #} still hidden #}b").unwrap();
    assert_eq!(t.render(&mut c), "ab");
    assert!(t.get_varnames().is_empty());
}

#[test]
fn a_comment_inside_a_token_cuts_its_body() {
    let mut c = Context::new();
    c.set("b", "B");
    let t = parse_str("{{ a {# note #} b }}").unwrap();
    assert_eq!(t.render(&mut c), " a B");
    assert_eq!(t.get_varnames(), vec![String::from("b")]);
}

#[test]
fn a_parser_can_be_fed_line_by_line() {
    let parser = Parser::new();
    let parser = parser.feed_line("a {{ x }}\n").unwrap();
    let parser = parser.feed_line("b{% if y %}\n").unwrap();
    let parser = parser.feed_line("c{% end %}").unwrap();
    let t = parser.finish().unwrap();
    let mut c = Context::new();
    c.set("x", 1);
    assert_eq!(t.render(&mut c), "a 1\nb");
    c.set("y", true);
    assert_eq!(t.render(&mut c), "a 1\nb\nc");
}

#[test]
fn a_parser_counts_the_lines_it_is_fed() {
    let parser = Parser::new().feed_line("one\n").unwrap().feed_line("two\n").unwrap();
    let e = parser.feed_line("x }}").unwrap_err();
    assert_eq!(e.to_string(), "Parse error at Line:3 Col:2. `}}`");
    let parser = Parser::new().feed_line("{% if a %}").unwrap();
    let e = parser.finish().unwrap_err();
    assert_eq!(
        e.to_string(),
        "Parse error at end of text. Missing `{% end %}` /From Line:1 `{% if`"
    );
}

#[test]
fn bytes_are_parsed_as_the_text_they_encode() {
    let source = "h\u{e9} {{ name }}\n{% if on %}\u{3042}{% end %}";
    let t = parse(source.as_bytes()).unwrap();
    let mut c = Context::new();
    c.set("name", "N");
    c.set("on", true);
    assert_eq!(t.render(&mut c), "h\u{e9} N\n\u{3042}");
    assert_eq!(parse_str(source).unwrap().render(&mut c), "h\u{e9} N\n\u{3042}");
}

#[test]
fn bytes_that_are_no_text_are_an_error() {
    let e = parse(&[0x61, 0xff]).unwrap_err();
    assert!(matches!(e, ParserError::Io(_)));
    assert_eq!(e.to_string(), "I/O Error: stream did not contain valid UTF-8");
    let e = parse(b"fine\n\xc3\n}}").unwrap_err();
    assert_eq!(e.to_string(), "I/O Error: stream did not contain valid UTF-8");
}

#[test]
fn the_first_error_is_the_one_reported() {
    let e = parse(b"}}\n\xff").unwrap_err();
    assert_eq!(e.to_string(), "Parse error at Line:1 Col:0. `}}`");
    assert_eq!(error_of("#}\n{% end %}"), "Parse error at Line:1 Col:0. `#}`");
}

#[test]
fn each_kind_of_error_reads_in_its_own_way() {
    assert_eq!(ParserError::Io(String::from("gone")).to_string(), "I/O Error: gone");
    assert_eq!(ParserError::InvalidData(String::from("bad")).to_string(), "Error : bad");
    assert_eq!(
        ParserError::ParserError((12, 345, String::from("what"))).to_string(),
        "Parse error at Line:12 Col:345. what"
    );
    assert_eq!(
        ParserError::ParserError((0, 0, String::new())).to_string(),
        "Parse error at Line:0 Col:0. "
    );
    assert_eq!(
        ParserError::ParserError((usize::MAX, 7, String::from("what"))).to_string(),
        "Parse error at end of text. what"
    );
}

#[test]
fn names_are_listed_once_in_the_order_of_the_template() {
    let t = parse_str(
        "{{ a }}{% for x in a %}{{ x.y }}{% if c %}{{ a }}{% else %}{{ d:r }}{% end %}{% end %}{{ b }}",
    )
    .unwrap();
    assert_eq!(t.get_varnames(), vec!["a", "x.y", "c", "d", "b"]);
}

#[test]
fn a_template_written_in_the_shortest_way_is_read_as_it_stands() {
    let source = "a}\n{{k:html}}b{%if c.d%}x{{v}}{%else%}{%end%}\n{%if e%}{%end%}{%for i in x-s%}{{i:r}}{{j:xml}}%{%end%}z{";
    let expected = block(vec![
        text("a}\n"),
        var("k", VarOpt::HTML),
        text("b"),
        Part::CondBlock(CondBlock {
            key: String::from("c.d"),
            pos: block(vec![text("x"), var("v", VarOpt::DEF), text("")]),
            neg: block(vec![text("")]),
        }),
        text("\n"),
        Part::CondBlock(CondBlock {
            key: String::from("e"),
            pos: block(vec![text("")]),
            neg: block(vec![]),
        }),
        text(""),
        Part::LoopBlock(LoopBlock {
            name: String::from("i"),
            key: String::from("x-s"),
            inner: block(vec![
                text(""),
                var("i", VarOpt::RAW),
                text(""),
                var("j", VarOpt::XML),
                text("%"),
            ]),
        }),
        text("z{"),
    ]);
    let t = parse_str(source).unwrap();
    assert_eq!(format!("{:?}", t.block()), format!("{:?}", expected));
}
