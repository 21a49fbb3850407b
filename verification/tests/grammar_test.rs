use minitemplate::grammar::{find_delim, parse_statement, parse_variable, Delim, Statement};
use minitemplate::{escape_str, VarOpt};
use regex::Regex;

fn delim_text(d: Delim) -> &'static str {
    match d {
        Delim::VarOpen => "{{",
        Delim::VarClose => "}}",
        Delim::StmtOpen => "{%",
        Delim::StmtClose => "%}",
        Delim::CommentOpen => "{#",
        Delim::CommentClose => "#}",
    }
}

/// The delimiters of a line as the scanner finds them: where each starts, in
/// bytes, and how it reads.
fn scan(line: &str) -> Vec<(usize, String)> {
    let chars: Vec<char> = line.chars().collect();
    let mut found = Vec::new();
    let mut pos = 0;
    let mut col = 0;
    while pos < chars.len() {
        match find_delim(&chars, pos) {
            Some(d) => {
                found.push((col, delim_text(d).to_string()));
                col += 2;
                pos += 2;
            }
            None => {
                col += chars[pos].len_utf8();
                pos += 1;
            }
        }
    }
    found
}

fn statement_as_tuple(body: &str) -> Option<(String, String, String)> {
    let chars: Vec<char> = body.chars().collect();
    match parse_statement(&chars) {
        None => None,
        Some(Statement::If { key }) => Some(("if".to_string(), key, String::new())),
        Some(Statement::Else) => Some(("else".to_string(), String::new(), String::new())),
        Some(Statement::For { name, key }) => Some(("for".to_string(), name, key)),
        Some(Statement::End) => Some(("end".to_string(), String::new(), String::new())),
    }
}

#[test]
fn delimiters_agree_with_the_pattern() {
    let pattern = Regex::new("(\\{\\{|\\}\\}|\\{%|%\\}|\\{#|#\\})").unwrap();
    let lines = [
        "",
        "plain text",
        "{{{ x }}}",
        "{%}",
        "a{{b}}c{%d%}e{#f#}g",
        "{ {",
        "#}}",
        "{{%}}",
        "{",
        "}}{{",
        "h\u{e9}{{x}}\u{3042}%}",
        "{#{#{#",
        "%%}}}",
        "{{ a }}\n",
    ];
    for line in lines {
        let expected: Vec<(usize, String)> = pattern
            .find_iter(line)
            .map(|m| (m.start(), m.as_str().to_string()))
            .collect();
        assert_eq!(scan(line), expected, "line {:?}", line);
    }
}

#[test]
fn statements_agree_with_the_pattern() {
    let pattern = Regex::new(
        "\\s*(if|else|for|end)(?:\\s+([A-Za-z0-9-._]+)(?:\\s+in\\s+([A-Za-z0-9-._]+))?)?\\s*",
    )
    .unwrap();
    let bodies = [
        " if cond ",
        "if  a.b-c_d",
        "else",
        " end ",
        " for x in xs ",
        "for x  in  xs",
        "for x",
        "for x in",
        "for x inside y",
        "for a in in b",
        "elif x",
        "endif",
        "if",
        "iffy",
        "IF x",
        "x if y",
        "else if x",
        "end for",
        "\u{3000}if\u{3000}k\u{3000}",
        "if\tx\n",
        "if\u{a0}x",
        "if\u{85}x",
        "if x y z",
        "if x in y",
        "",
        "   ",
        "nothing here",
        "for for in for",
        "if !x",
        "for x in !y",
        "for x\u{2003}in\u{2028}ys",
    ];
    for body in bodies {
        let expected = match pattern.captures(body) {
            None => None,
            Some(caps) => {
                let word = caps.get(1).unwrap().as_str();
                let first = caps.get(2).map(|m| m.as_str().to_string());
                let second = caps.get(3).map(|m| m.as_str().to_string());
                match (word, first, second) {
                    ("end", _, _) => Some(("end".to_string(), String::new(), String::new())),
                    ("else", _, _) => Some(("else".to_string(), String::new(), String::new())),
                    ("if", Some(key), _) => Some(("if".to_string(), key, String::new())),
                    ("for", Some(name), Some(key)) => Some(("for".to_string(), name, key)),
                    _ => None,
                }
            }
        };
        assert_eq!(statement_as_tuple(body), expected, "body {:?}", body);
    }
}

#[test]
fn variables_agree_with_the_pattern() {
    let pattern =
        Regex::new("\\s*([A-Za-z0-9-._]+)(?:\\s*:\\s*(r|raw|html|xml))?\\s*").unwrap();
    let bodies = [
        " var ",
        "var",
        "var:r",
        "var : raw",
        "var:html",
        "var :xml ",
        "var:x",
        "var : rhubarb",
        "var: htm",
        "var: HTML",
        " a b ",
        "!!!foo",
        ":html",
        "",
        "   ",
        "!!!",
        "var:\u{3000}xml",
        "var.x-y_z:r",
        "var\t:\txml",
        "var : : html",
        "var html",
        "-._",
        "\u{e9}t\u{e9}",
    ];
    for body in bodies {
        let expected = pattern.captures(body).map(|caps| {
            let key = caps.get(1).unwrap().as_str().to_string();
            let opt = match caps.get(2).map(|m| m.as_str()) {
                Some("r") => VarOpt::RAW,
                Some("raw") => VarOpt::RAW,
                Some("html") => VarOpt::HTML,
                Some("xml") => VarOpt::XML,
                _ => VarOpt::DEF,
            };
            (key, opt)
        });
        let chars: Vec<char> = body.chars().collect();
        assert_eq!(parse_variable(&chars), expected, "body {:?}", body);
    }
}

#[test]
fn escaping_agrees_with_the_pattern() {
    let pattern = Regex::new("[<>&'\" ]").unwrap();
    let texts = [
        "",
        "plain",
        "D< >D",
        "a & b",
        "\"quoted\" and 'single'",
        "<<>>&&  ''\"\"",
        "tab\tand\nnewline stay",
        "&amp; is escaped again",
        "h\u{e9} \u{3042}\u{a0}",
    ];
    for text in texts {
        let expected = pattern
            .replace_all(text, |caps: &regex::Captures| match caps.get(0).unwrap().as_str() {
                "&" => "&amp;",
                "<" => "&lt;",
                ">" => "&gt;",
                "\"" => "&quot;",
                "'" => "&#39;",
                " " => "&nbsp;",
                _ => "",
            })
            .into_owned();
        assert_eq!(escape_str(text.to_string(), &VarOpt::HTML), expected);
        assert_eq!(escape_str(text.to_string(), &VarOpt::XML), expected);
        assert_eq!(escape_str(text.to_string(), &VarOpt::RAW), text);
        assert_eq!(escape_str(text.to_string(), &VarOpt::DEF), text);
    }
}

#[test]
fn a_statement_needs_what_follows_its_word() {
    assert_eq!(statement_as_tuple("if"), None);
    assert_eq!(statement_as_tuple("for"), None);
    assert_eq!(statement_as_tuple("for x in"), None);
    assert_eq!(
        statement_as_tuple("for item in list"),
        Some(("for".to_string(), "item".to_string(), "list".to_string()))
    );
    assert_eq!(
        statement_as_tuple("if a.b"),
        Some(("if".to_string(), "a.b".to_string(), String::new()))
    );
}

#[test]
fn an_option_is_known_by_how_it_starts() {
    let read = |body: &str| {
        let chars: Vec<char> = body.chars().collect();
        parse_variable(&chars)
    };
    assert_eq!(read("v"), Some(("v".to_string(), VarOpt::DEF)));
    assert_eq!(read("v:r"), Some(("v".to_string(), VarOpt::RAW)));
    assert_eq!(read("v:raw"), Some(("v".to_string(), VarOpt::RAW)));
    assert_eq!(read("v:html"), Some(("v".to_string(), VarOpt::HTML)));
    assert_eq!(read("v:xml"), Some(("v".to_string(), VarOpt::XML)));
    assert_eq!(read("v:json"), Some(("v".to_string(), VarOpt::DEF)));
    assert_eq!(read(" "), None);
}
