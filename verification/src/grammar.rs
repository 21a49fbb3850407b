//! The grammar of the template language: the six delimiters, and what may
//! stand between `{{` and `}}` and between `{%` and `%}`.
//!
//! Both token bodies are read leniently: the first thing in the body that can
//! be read as a key or as a keyword decides, and whatever stands before it or
//! after what was read is ignored.

use crate::template::VarOpt;
use crate::text::{char_is_key, char_is_space, is_key_char, is_space, string_of};
use vstd::prelude::*;

verus! {

/// One of the six delimiters.
#[derive(Debug, Clone, Copy, PartialEq, Eq, Structural)]
pub enum Delim {
    /// `{{`
    VarOpen,
    /// `}}`
    VarClose,
    /// `{%`
    StmtOpen,
    /// `%}`
    StmtClose,
    /// `{#`
    CommentOpen,
    /// `#}`
    CommentClose,
}

/// The delimiter that two characters spell, if they spell one.
pub open spec fn delim_of(a: char, b: char) -> Option<Delim> {
    if a == '{' && b == '{' {
        Some(Delim::VarOpen)
    } else if a == '}' && b == '}' {
        Some(Delim::VarClose)
    } else if a == '{' && b == '%' {
        Some(Delim::StmtOpen)
    } else if a == '%' && b == '}' {
        Some(Delim::StmtClose)
    } else if a == '{' && b == '#' {
        Some(Delim::CommentOpen)
    } else if a == '#' && b == '}' {
        Some(Delim::CommentClose)
    } else {
        None
    }
}

/// The delimiter that starts at index `i` of `s`, if one does.
pub open spec fn delim_at(s: Seq<char>, i: int) -> Option<Delim> {
    if 0 <= i && i + 1 < s.len() {
        delim_of(s[i], s[i + 1])
    } else {
        None
    }
}

/// The delimiter as it is written.
pub open spec fn delim_text(d: Delim) -> Seq<char> {
    match d {
        Delim::VarOpen => "{{"@,
        Delim::VarClose => "}}"@,
        Delim::StmtOpen => "{%"@,
        Delim::StmtClose => "%}"@,
        Delim::CommentOpen => "{#"@,
        Delim::CommentClose => "#}"@,
    }
}

/// The delimiter that starts at index `i` of `s`, if one does.
pub fn find_delim(s: &Vec<char>, i: usize) -> (r: Option<Delim>)
    ensures
        r == delim_at(s@, i as int),
{
    if i < s.len() && s.len() - i > 1 {
        let a = s[i];
        let b = s[i + 1];
        if a == '{' && b == '{' {
            Some(Delim::VarOpen)
        } else if a == '}' && b == '}' {
            Some(Delim::VarClose)
        } else if a == '{' && b == '%' {
            Some(Delim::StmtOpen)
        } else if a == '%' && b == '}' {
            Some(Delim::StmtClose)
        } else if a == '{' && b == '#' {
            Some(Delim::CommentOpen)
        } else if a == '#' && b == '}' {
            Some(Delim::CommentClose)
        } else {
            None
        }
    } else {
        None
    }
}

/// The delimiter as it is written.
pub fn delim_str(d: Delim) -> (r: &'static str)
    ensures
        r@ == delim_text(d),
{
    match d {
        Delim::VarOpen => "{{",
        Delim::VarClose => "}}",
        Delim::StmtOpen => "{%",
        Delim::StmtClose => "%}",
        Delim::CommentOpen => "{#",
        Delim::CommentClose => "#}",
    }
}

/// The first index from `i` on that holds no space; the length of `s` if
/// there is none.
pub open spec fn skip_spaces(s: Seq<char>, i: int) -> int
    decreases s.len() - i,
{
    if 0 <= i < s.len() && is_space(s[i]) {
        skip_spaces(s, i + 1)
    } else {
        i
    }
}

/// The first index from `i` on that holds no key character; the length of `s`
/// if there is none.
pub open spec fn key_end(s: Seq<char>, i: int) -> int
    decreases s.len() - i,
{
    if 0 <= i < s.len() && is_key_char(s[i]) {
        key_end(s, i + 1)
    } else {
        i
    }
}

/// The first index from `i` on that holds a key character; the length of `s`
/// if there is none.
pub open spec fn key_start(s: Seq<char>, i: int) -> int
    decreases s.len() - i,
{
    if 0 <= i < s.len() && !is_key_char(s[i]) {
        key_start(s, i + 1)
    } else {
        i
    }
}

/// Whether `word` stands in `s` at index `i`.
pub open spec fn word_at(s: Seq<char>, i: int, word: Seq<char>) -> bool {
    0 <= i && i + word.len() <= s.len() && s.subrange(i, i + word.len()) == word
}

/// The first index from `i` on that holds no space.
pub(crate) fn spaces_end(s: &Vec<char>, i: usize) -> (r: usize)
    requires
        i <= s@.len(),
    ensures
        r == skip_spaces(s@, i as int),
        i <= r <= s@.len(),
{
    let mut j: usize = i;
    while j < s.len() && char_is_space(s[j])
        invariant
            i <= j <= s@.len(),
            skip_spaces(s@, i as int) == skip_spaces(s@, j as int),
        decreases s@.len() - j,
    {
        j = j + 1;
    }
    j
}

/// The first index from `i` on that holds no key character.
pub(crate) fn key_run_end(s: &Vec<char>, i: usize) -> (r: usize)
    requires
        i <= s@.len(),
    ensures
        r == key_end(s@, i as int),
        i <= r <= s@.len(),
{
    let mut j: usize = i;
    while j < s.len() && char_is_key(s[j])
        invariant
            i <= j <= s@.len(),
            key_end(s@, i as int) == key_end(s@, j as int),
        decreases s@.len() - j,
    {
        j = j + 1;
    }
    j
}

/// The first index from `i` on that holds a key character.
pub(crate) fn key_run_start(s: &Vec<char>, i: usize) -> (r: usize)
    requires
        i <= s@.len(),
    ensures
        r == key_start(s@, i as int),
        i <= r <= s@.len(),
{
    let mut j: usize = i;
    while j < s.len() && !char_is_key(s[j])
        invariant
            i <= j <= s@.len(),
            key_start(s@, i as int) == key_start(s@, j as int),
        decreases s@.len() - j,
    {
        j = j + 1;
    }
    j
}

/// Whether `word` stands in `s` at index `i`.
pub(crate) fn has_word(s: &Vec<char>, i: usize, word: &Vec<char>) -> (r: bool)
    requires
        i <= s@.len(),
    ensures
        r == word_at(s@, i as int, word@),
{
    if s.len() - i < word.len() {
        return false;
    }
    let mut j: usize = 0;
    while j < word.len()
        invariant
            j <= word@.len(),
            i + word@.len() <= s@.len() <= usize::MAX,
            forall|k: int| 0 <= k < j ==> s@[i + k] == word@[k],
        decreases word@.len() - j,
    {
        if s[i + j] != word[j] {
            assert(s@.subrange(i as int, i + word@.len())[j as int] != word@[j as int]);
            return false;
        }
        j = j + 1;
    }
    assert(s@.subrange(i as int, i + word@.len()) =~= word@);
    true
}

/// What stands between `{{` and `}}`: the first run of key characters in the
/// body is the key. After it may follow, with spaces wherever one likes, a
/// colon and one of `r`, `raw`, `html`, `xml`. An option is known by how it
/// starts, so that `r` and `raw` are one.
pub open spec fn variable_of(s: Seq<char>) -> Option<(Seq<char>, VarOpt)> {
    let k = key_start(s, 0);
    if k < s.len() {
        let e = key_end(s, k);
        Some((s.subrange(k, e), option_at(s, e)))
    } else {
        None
    }
}

/// The option that is written from index `i` on, which is where a key ended.
pub open spec fn option_at(s: Seq<char>, i: int) -> VarOpt {
    let j = skip_spaces(s, i);
    if j < s.len() && s[j] == ':' {
        let m = skip_spaces(s, j + 1);
        if word_at(s, m, seq!['r']) {
            VarOpt::RAW
        } else if word_at(s, m, seq!['h', 't', 'm', 'l']) {
            VarOpt::HTML
        } else if word_at(s, m, seq!['x', 'm', 'l']) {
            VarOpt::XML
        } else {
            VarOpt::DEF
        }
    } else {
        VarOpt::DEF
    }
}

/// The option that is written from index `i` on.
fn read_option(s: &Vec<char>, i: usize) -> (r: VarOpt)
    requires
        i <= s@.len(),
    ensures
        r == option_at(s@, i as int),
{
    let j = spaces_end(s, i);
    if j < s.len() && s[j] == ':' {
        let m = spaces_end(s, j + 1);
        let raw: Vec<char> = vec!['r'];
        let html: Vec<char> = vec!['h', 't', 'm', 'l'];
        let xml: Vec<char> = vec!['x', 'm', 'l'];
        assert(raw@ =~= seq!['r']);
        assert(html@ =~= seq!['h', 't', 'm', 'l']);
        assert(xml@ =~= seq!['x', 'm', 'l']);
        if has_word(s, m, &raw) {
            VarOpt::RAW
        } else if has_word(s, m, &html) {
            VarOpt::HTML
        } else if has_word(s, m, &xml) {
            VarOpt::XML
        } else {
            VarOpt::DEF
        }
    } else {
        VarOpt::DEF
    }
}

/// Reads the body of a variable token. `None` where the body holds no key.
pub fn parse_variable(body: &Vec<char>) -> (r: Option<(String, VarOpt)>)
    ensures
        match r {
            Some((key, opt)) => variable_of(body@) == Some((key@, opt)),
            None => variable_of(body@) is None,
        },
{
    let k = key_run_start(body, 0);
    if k < body.len() {
        let e = key_run_end(body, k);
        let key = string_of(body, k, e);
        let opt = read_option(body, e);
        Some((key, opt))
    } else {
        None
    }
}

/// The four words that a statement may begin with.
#[derive(Debug, Clone, Copy, PartialEq, Eq, Structural)]
pub enum Keyword {
    If,
    Else,
    For,
    End,
}

/// The keyword that stands in `s` at index `i`, if one does.
pub open spec fn keyword_at(s: Seq<char>, i: int) -> Option<Keyword> {
    if word_at(s, i, seq!['i', 'f']) {
        Some(Keyword::If)
    } else if word_at(s, i, seq!['e', 'l', 's', 'e']) {
        Some(Keyword::Else)
    } else if word_at(s, i, seq!['f', 'o', 'r']) {
        Some(Keyword::For)
    } else if word_at(s, i, seq!['e', 'n', 'd']) {
        Some(Keyword::End)
    } else {
        None
    }
}

/// The first keyword in `s` from index `i` on, with the index after it.
pub open spec fn first_keyword(s: Seq<char>, i: int) -> Option<(Keyword, int)>
    decreases s.len() - i,
{
    if 0 <= i < s.len() {
        match keyword_at(s, i) {
            Some(Keyword::If) => Some((Keyword::If, i + 2)),
            Some(Keyword::Else) => Some((Keyword::Else, i + 4)),
            Some(k) => Some((k, i + 3)),
            None => first_keyword(s, i + 1),
        }
    } else {
        None
    }
}

/// A key that follows index `i` after at least one space: where it starts and
/// where it ends.
pub open spec fn argument_at(s: Seq<char>, i: int) -> Option<(int, int)> {
    let a = skip_spaces(s, i);
    let b = key_end(s, a);
    if i < a && a < b {
        Some((a, b))
    } else {
        None
    }
}

/// The mathematical form of a [`Statement`].
pub ghost enum StatementView {
    If { key: Seq<char> },
    Else,
    For { name: Seq<char>, key: Seq<char> },
    End,
}

/// What stands between `{%` and `%}`: the first of the words `if`, `else`,
/// `for`, `end` in the body decides. After `if` follows a key; after `for`
/// follow a name, the word `in` and a key, each after at least one space.
/// `None` where the body holds none of the four words, or where what must
/// follow the word is not there.
pub open spec fn statement_of(s: Seq<char>) -> Option<StatementView> {
    match first_keyword(s, 0) {
        None => None,
        Some((Keyword::Else, _)) => Some(StatementView::Else),
        Some((Keyword::End, _)) => Some(StatementView::End),
        Some((Keyword::If, e)) => match argument_at(s, e) {
            Some((a, b)) => Some(StatementView::If { key: s.subrange(a, b) }),
            None => None,
        },
        Some((Keyword::For, e)) => match argument_at(s, e) {
            Some((a, b)) => {
                let c = skip_spaces(s, b);
                if b < c && word_at(s, c, seq!['i', 'n']) {
                    match argument_at(s, c + 2) {
                        Some((d, f)) => Some(
                            StatementView::For { name: s.subrange(a, b), key: s.subrange(d, f) },
                        ),
                        None => None,
                    }
                } else {
                    None
                }
            },
            None => None,
        },
    }
}

/// A statement of the template language.
#[derive(Debug)]
pub enum Statement {
    If { key: String },
    Else,
    For { name: String, key: String },
    End,
}

impl View for Statement {
    type V = StatementView;

    open spec fn view(&self) -> StatementView {
        match self {
            Statement::If { key } => StatementView::If { key: key@ },
            Statement::Else => StatementView::Else,
            Statement::For { name, key } => StatementView::For { name: name@, key: key@ },
            Statement::End => StatementView::End,
        }
    }
}

/// The first keyword in `s`, with the index after it.
fn find_keyword(s: &Vec<char>) -> (r: Option<(Keyword, usize)>)
    ensures
        match r {
            Some((k, e)) => first_keyword(s@, 0) == Some((k, e as int)) && e <= s@.len(),
            None => first_keyword(s@, 0) is None,
        },
{
    let word_if: Vec<char> = vec!['i', 'f'];
    let word_else: Vec<char> = vec!['e', 'l', 's', 'e'];
    let word_for: Vec<char> = vec!['f', 'o', 'r'];
    let word_end: Vec<char> = vec!['e', 'n', 'd'];
    assert(word_if@ =~= seq!['i', 'f']);
    assert(word_else@ =~= seq!['e', 'l', 's', 'e']);
    assert(word_for@ =~= seq!['f', 'o', 'r']);
    assert(word_end@ =~= seq!['e', 'n', 'd']);
    let mut i: usize = 0;
    while i < s.len()
        invariant
            i <= s@.len(),
            first_keyword(s@, 0) == first_keyword(s@, i as int),
            word_if@ == seq!['i', 'f'],
            word_else@ == seq!['e', 'l', 's', 'e'],
            word_for@ == seq!['f', 'o', 'r'],
            word_end@ == seq!['e', 'n', 'd'],
        decreases s@.len() - i,
    {
        if has_word(s, i, &word_if) {
            return Some((Keyword::If, i + 2));
        } else if has_word(s, i, &word_else) {
            return Some((Keyword::Else, i + 4));
        } else if has_word(s, i, &word_for) {
            return Some((Keyword::For, i + 3));
        } else if has_word(s, i, &word_end) {
            return Some((Keyword::End, i + 3));
        }
        i = i + 1;
    }
    None
}

/// A key that follows index `i` after at least one space.
fn read_argument(s: &Vec<char>, i: usize) -> (r: Option<(usize, usize)>)
    requires
        i <= s@.len(),
    ensures
        match r {
            Some((a, b)) => argument_at(s@, i as int) == Some((a as int, b as int)) && i < a < b
                <= s@.len(),
            None => argument_at(s@, i as int) is None,
        },
{
    let a = spaces_end(s, i);
    let b = key_run_end(s, a);
    if i < a && a < b {
        Some((a, b))
    } else {
        None
    }
}

/// Reads the body of a statement token. `None` where the body is no
/// statement.
pub fn parse_statement(body: &Vec<char>) -> (r: Option<Statement>)
    ensures
        match r {
            Some(st) => statement_of(body@) == Some(st@),
            None => statement_of(body@) is None,
        },
{
    match find_keyword(body) {
        None => None,
        Some((Keyword::Else, _)) => Some(Statement::Else),
        Some((Keyword::End, _)) => Some(Statement::End),
        Some((Keyword::If, e)) => match read_argument(body, e) {
            Some((a, b)) => Some(Statement::If { key: string_of(body, a, b) }),
            None => None,
        },
        Some((Keyword::For, e)) => match read_argument(body, e) {
            Some((a, b)) => {
                let c = spaces_end(body, b);
                let word_in: Vec<char> = vec!['i', 'n'];
                assert(word_in@ =~= seq!['i', 'n']);
                if b < c && has_word(body, c, &word_in) {
                    assert(c + 2 <= body@.len() <= usize::MAX) by {
                        assert(word_in@.len() == 2);
                        assert(body@.len() == body.len());
                    }
                    match read_argument(body, c + 2) {
                        Some((d, f)) => Some(
                            Statement::For {
                                name: string_of(body, a, b),
                                key: string_of(body, d, f),
                            },
                        ),
                        None => None,
                    }
                } else {
                    None
                }
            },
            None => None,
        },
    }
}

} // verus!
