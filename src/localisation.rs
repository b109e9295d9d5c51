//! The read-only mapping from localisation keys to display text.
use vstd::prelude::*;
use vstd::string::StringExecFns;
use crate::text::{chars_of, string_of};

verus! {

/// The localisations of countries, ideas and cultures, each read from its own file.
#[derive(Debug)]
pub struct Localisations {
    pub countries: LocalisationIndex,
    pub ideas: LocalisationIndex,
    pub cultures: LocalisationIndex,
}

/// Entries in the order they were added; a later entry for a key hides earlier ones.
#[derive(Debug)]
pub struct LocalisationIndex {
    pub entries: Vec<(String, String)>,
}

pub open spec fn entry_view(e: (String, String)) -> (Seq<char>, Seq<char>) {
    (e.0@, e.1@)
}

/// The text of the last entry for `key`.
pub open spec fn lookup(es: Seq<(Seq<char>, Seq<char>)>, key: Seq<char>) -> Option<Seq<char>>
    decreases es.len(),
{
    if es.len() == 0 {
        None
    } else if es.last().0 == key {
        Some(es.last().1)
    } else {
        lookup(es.drop_last(), key)
    }
}

/// Looks `key` up where an index was given; no index finds nothing.
pub open spec fn lookup_in(loc: Option<Seq<(Seq<char>, Seq<char>)>>, key: Seq<char>) -> Option<
    Seq<char>,
> {
    match loc {
        Some(es) => lookup(es, key),
        None => None,
    }
}

pub open spec fn index_view(loc: Option<&LocalisationIndex>) -> Option<Seq<(Seq<char>, Seq<char>)>> {
    match loc {
        Some(l) => Some(l@),
        None => None,
    }
}

impl View for LocalisationIndex {
    type V = Seq<(Seq<char>, Seq<char>)>;

    open spec fn view(&self) -> Seq<(Seq<char>, Seq<char>)> {
        self.entries@.map_values(|e: (String, String)| entry_view(e))
    }
}

impl LocalisationIndex {
    pub fn new() -> (r: LocalisationIndex)
        ensures
            r@ == Seq::<(Seq<char>, Seq<char>)>::empty(),
    {
        let r = LocalisationIndex { entries: Vec::new() };
        assert(r@ =~= Seq::<(Seq<char>, Seq<char>)>::empty());
        r
    }

    /// Adds an entry; it hides any earlier one for the same key.
    pub fn insert(&mut self, key: String, text: String)
        ensures
            final(self)@ == old(self)@.push((key@, text@)),
    {
        let ghost before = self@;
        self.entries.push((key, text));
        assert(self@ =~= before.push((key@, text@)));
    }

    /// The text for `key`, if any.
    pub fn get(&self, key: &str) -> (r: Option<&String>)
        ensures
            match r {
                Some(s) => lookup(self@, key@) == Some(s@),
                None => lookup(self@, key@) is None,
            },
    {
        let k = String::from_str(key);
        let mut i = self.entries.len();
        assert(self@.take(i as int) =~= self@);
        while i > 0
            invariant
                i <= self.entries@.len(),
                k@ == key@,
                lookup(self@, key@) == lookup(self@.take(i as int), key@),
            decreases i,
        {
            assert(self@.take(i as int).drop_last() =~= self@.take(i - 1));
            if self.entries[i - 1].0 == k {
                return Some(&self.entries[i - 1].1);
            }
            i = i - 1;
        }
        None
    }

    /// An owned copy of the text for `key`, if any.
    pub fn get_text(&self, key: &String) -> (r: Option<String>)
        ensures
            match r {
                Some(s) => lookup(self@, key@) == Some(s@),
                None => lookup(self@, key@) is None,
            },
    {
        match self.get(key.as_str()) {
            Some(s) => Some(s.clone()),
            None => None,
        }
    }
}

/// Looks a key up in an index, where one was given.
pub fn find_text(loc: Option<&LocalisationIndex>, key: &String) -> (r: Option<String>)
    ensures
        match r {
            Some(s) => lookup_in(index_view(loc), key@) == Some(s@),
            None => lookup_in(index_view(loc), key@) is None,
        },
{
    match loc {
        Some(l) => l.get_text(key),
        None => None,
    }
}

/// Pattern of a colour code: a code character, the coloured text, and the closing mark.
pub const COLOUR_CODE_PATTERN: &'static str = "\u{a7}(.)(.+?)\u{a7}!";

/// The class name of a colour code; codes that name no colour are black.
pub open spec fn colour_class(c: Seq<char>) -> Seq<char> {
    if c == "W"@ { "white"@ }
    else if c == "B"@ { "blue"@ }
    else if c == "G"@ { "green"@ }
    else if c == "R"@ { "red"@ }
    else if c == "g"@ { "grey"@ }
    else if c == "Y"@ { "yellow"@ }
    else if c == "M"@ { "marine"@ }
    else if c == "T"@ { "teal"@ }
    else if c == "O"@ { "orange"@ }
    else if c == "l"@ { "lime"@ }
    else if c == "J"@ { "jade"@ }
    else if c == "P"@ { "purple"@ }
    else if c == "V"@ { "violet"@ }
    else if c == "o"@ { "darkorange"@ }
    else if c == "C"@ { "darkmagenta"@ }
    else if c == "p"@ { "pink"@ }
    else if c == "y"@ { "gold"@ }
    else if c == "m"@ { "lightgreen"@ }
    else { "black"@ }
}

/// The markup that replaces one colour code.
pub open spec fn span_text(code: Seq<char>, text: Seq<char>) -> Seq<char> {
    "<span class=\""@ + colour_class(code) + "\">"@ + text + "</span>"@
}

fn colour_name(code: &str) -> (r: &'static str)
    ensures
        r@ == colour_class(code@),
{
    proof {
        reveal_strlit("W"); reveal_strlit("B"); reveal_strlit("G"); reveal_strlit("R");
        reveal_strlit("g"); reveal_strlit("Y"); reveal_strlit("M"); reveal_strlit("T");
        reveal_strlit("O"); reveal_strlit("l"); reveal_strlit("J"); reveal_strlit("P");
        reveal_strlit("V"); reveal_strlit("o"); reveal_strlit("C"); reveal_strlit("p");
        reveal_strlit("y"); reveal_strlit("m");
        assert("W"@ =~= seq!['W']);
        assert("B"@ =~= seq!['B']);
        assert("G"@ =~= seq!['G']);
        assert("R"@ =~= seq!['R']);
        assert("g"@ =~= seq!['g']);
        assert("Y"@ =~= seq!['Y']);
        assert("M"@ =~= seq!['M']);
        assert("T"@ =~= seq!['T']);
        assert("O"@ =~= seq!['O']);
        assert("l"@ =~= seq!['l']);
        assert("J"@ =~= seq!['J']);
        assert("P"@ =~= seq!['P']);
        assert("V"@ =~= seq!['V']);
        assert("o"@ =~= seq!['o']);
        assert("C"@ =~= seq!['C']);
        assert("p"@ =~= seq!['p']);
        assert("y"@ =~= seq!['y']);
        assert("m"@ =~= seq!['m']);
    }
    let cs = chars_of(code);
    if cs.len() != 1 {
        return "black";
    }
    let c = cs[0];
    assert(code@ =~= seq![c]);
    if c == 'W' { "white" }
    else if c == 'B' { "blue" }
    else if c == 'G' { "green" }
    else if c == 'R' { "red" }
    else if c == 'g' { "grey" }
    else if c == 'Y' { "yellow" }
    else if c == 'M' { "marine" }
    else if c == 'T' { "teal" }
    else if c == 'O' { "orange" }
    else if c == 'l' { "lime" }
    else if c == 'J' { "jade" }
    else if c == 'P' { "purple" }
    else if c == 'V' { "violet" }
    else if c == 'o' { "darkorange" }
    else if c == 'C' { "darkmagenta" }
    else if c == 'p' { "pink" }
    else if c == 'y' { "gold" }
    else if c == 'm' { "lightgreen" }
    else { "black" }
}

/// The markup for one colour code and its text.
pub fn colour_span(code: &str, text: &str) -> (r: String)
    ensures
        r@ == span_text(code@, text@),
{
    let r = String::from_str("<span class=\"");
    let r = r.concat(colour_name(code));
    let r = r.concat("\">");
    let r = r.concat(text);
    r.concat("</span>")
}

/// What replacing every match of a pattern by its colour span gives, or none where the
/// pattern is no valid expression.
pub uninterp spec fn colour_codes_replaced(pattern: Seq<char>, input: Seq<char>) -> Option<Seq<char>>;

/// Relies on `regex::Regex::new` and `Regex::replace_all`: every leftmost-first match of
/// the pattern is replaced by what the closure gives for its two groups. The colour-code
/// pattern compiles, and it matches only where a `\u{a7}` stands: `replace_all` gives
/// text without one back untouched.
#[verifier::external_body]
fn replace_colour_codes(pattern: &str, input: &str) -> (r: Option<String>)
    ensures
        match r {
            Some(s) => colour_codes_replaced(pattern@, input@) == Some(s@),
            None => colour_codes_replaced(pattern@, input@) is None,
        },
        pattern@ == COLOUR_CODE_PATTERN@ && !input@.contains('\u{a7}') ==> r is Some && r->0@
            == input@,
{
    let re = regex::Regex::new(pattern).ok()?;
    let out = re.replace_all(input, |m: &regex::Captures| {
        colour_span(m.get(1).map_or("", |g| g.as_str()), m.get(2).map_or("", |g| g.as_str()))
    });
    Some(out.into_owned())
}

pub open spec fn colourised(input: Seq<char>) -> Seq<char> {
    match colour_codes_replaced(COLOUR_CODE_PATTERN@, input) {
        Some(s) => s,
        None => input,
    }
}

/// Turns colour codes into coloured spans.
pub fn colourise(input: &String) -> (r: String)
    ensures
        r@ == colourised(input@),
        !input@.contains('\u{a7}') ==> r@ == input@,
{
    match replace_colour_codes(COLOUR_CODE_PATTERN, input.as_str()) {
        Some(s) => s,
        None => input.clone(),
    }
}

/// Icon codes are kept as they stand.
pub fn iconise(input: &String) -> (r: String)
    ensures
        r@ == input@,
{
    input.clone()
}

/// Colour codes become spans; the rest of the text is kept.
pub fn preprocess(input: &String) -> (r: String)
    ensures
        r@ == colourised(input@),
        !input@.contains('\u{a7}') ==> r@ == input@,
{
    let processed = colourise(input);
    iconise(&processed)
}

/// Unicode white space, as `char::is_whitespace` has it.
pub open spec fn is_space_char(c: char) -> bool {
    ('\u{9}' <= c && c <= '\u{d}') || c == ' ' || c == '\u{85}' || c == '\u{a0}' || c == '\u{1680}'
        || ('\u{2000}' <= c && c <= '\u{200a}') || c == '\u{2028}' || c == '\u{2029}' || c
        == '\u{202f}' || c == '\u{205f}' || c == '\u{3000}'
}

fn space_char(c: char) -> (r: bool)
    ensures
        r == is_space_char(c),
{
    ('\u{9}' <= c && c <= '\u{d}') || c == ' ' || c == '\u{85}' || c == '\u{a0}' || c == '\u{1680}'
        || ('\u{2000}' <= c && c <= '\u{200a}') || c == '\u{2028}' || c == '\u{2029}' || c
        == '\u{202f}' || c == '\u{205f}' || c == '\u{3000}'
}

/// What `char::is_numeric` says of a character.
pub uninterp spec fn numeric_char(c: char) -> bool;

/// Relies on `char::is_numeric`: whether the character is numeric, by its own class.
#[verifier::external_body]
fn is_numeric(c: char) -> (r: bool)
    ensures
        r == numeric_char(c),
{
    c.is_numeric()
}

/// Bytes that a character takes in UTF-8.
pub open spec fn char_width(c: char) -> nat {
    if (c as u32) < 0x80 {
        1
    } else if (c as u32) < 0x800 {
        2
    } else if (c as u32) < 0x10000 {
        3
    } else {
        4
    }
}

pub open spec fn utf8_len(s: Seq<char>) -> nat
    decreases s.len(),
{
    if s.len() == 0 {
        0
    } else {
        utf8_len(s.drop_last()) + char_width(s.last())
    }
}

pub open spec fn find_char(s: Seq<char>, c: char, i: int) -> int
    decreases s.len() - i,
{
    if i >= s.len() {
        s.len() as int
    } else if s[i] == c {
        i
    } else {
        find_char(s, c, i + 1)
    }
}

/// The lines of a text: split at line feeds, a carriage return before one dropped, no
/// empty line after a final line feed.
pub open spec fn split_lines(s: Seq<char>) -> Seq<Seq<char>>
    decreases s.len(),
{
    if s.len() == 0 {
        seq![]
    } else {
        let i = find_char(s, '\n', 0);
        if i >= s.len() || i < 0 {
            seq![s]
        } else {
            let l = s.take(i);
            let line = if l.len() > 0 && l.last() == '\r' {
                l.drop_last()
            } else {
                l
            };
            seq![line] + split_lines(s.subrange(i + 1, s.len() as int))
        }
    }
}

/// First index at or after `i` whose character is no white space.
pub open spec fn space_front(s: Seq<char>, i: int) -> int
    decreases s.len() - i,
{
    if i < s.len() && is_space_char(s[i]) {
        space_front(s, i + 1)
    } else {
        i
    }
}

/// Index after the last character before `j` that is no white space.
pub open spec fn space_back(s: Seq<char>, j: int) -> int
    decreases j,
{
    if j > 0 && is_space_char(s[j - 1]) {
        space_back(s, j - 1)
    } else {
        j
    }
}

pub open spec fn numeric_front(s: Seq<char>, i: int) -> int
    decreases s.len() - i,
{
    if i < s.len() && numeric_char(s[i]) {
        numeric_front(s, i + 1)
    } else {
        i
    }
}

/// Index of the last `"` before `j`, or -1.
pub open spec fn last_quote(s: Seq<char>, j: int) -> int
    decreases j,
{
    if j <= 0 {
        -1
    } else if s[j - 1] == '"' {
        j - 1
    } else {
        last_quote(s, j - 1)
    }
}

pub open spec fn trimmed(s: Seq<char>) -> Seq<char> {
    let a = space_front(s, 0);
    let b = space_back(s, s.len() as int);
    if a < b {
        s.subrange(a, b)
    } else {
        seq![]
    }
}

/// The text of an entry from what follows its colon: the version number and blanks
/// go, then the quotes around the text and whatever follows the last quote.
pub open spec fn entry_text(y: Seq<char>) -> Seq<char> {
    let v1 = y.subrange(numeric_front(y, 0), y.len() as int);
    let v2 = v1.subrange(space_front(v1, 0), v1.len() as int);
    let v3 = if v2.len() > 0 && v2.last() == '"' {
        v2
    } else if last_quote(v2, v2.len() as int) >= 0 {
        v2.take(last_quote(v2, v2.len() as int))
    } else {
        v2
    };
    let v4 = if v3.len() > 0 && v3[0] == '"' {
        v3.drop_first()
    } else {
        v3
    };
    if v4.len() > 0 && v4.last() == '"' {
        v4.drop_last()
    } else {
        v4
    }
}

/// The entry of one line, if it holds one.
pub open spec fn line_entry(line: Seq<char>) -> Option<(Seq<char>, Seq<char>)> {
    let t = trimmed(line);
    let c = find_char(t, ':', 0);
    if t.len() == 0 || t[0] == '#' || c >= t.len() || c == 0 {
        None
    } else {
        let y = t.subrange(c + 1, t.len() as int);
        if utf8_len(y) >= 4 {
            Some((t.take(c), colourised(entry_text(y))))
        } else {
            Some((t.take(c), seq![]))
        }
    }
}

/// The entries of lines `1..k`: the first line names the language.
pub open spec fn line_entries(ls: Seq<Seq<char>>, k: int) -> Seq<(Seq<char>, Seq<char>)>
    decreases k,
{
    if k <= 1 || k > ls.len() {
        seq![]
    } else {
        match line_entry(ls[k - 1]) {
            Some(e) => line_entries(ls, k - 1).push(e),
            None => line_entries(ls, k - 1),
        }
    }
}

/// The entries of a localisation file, in order.
pub open spec fn localisation_entries(data: Seq<char>) -> Seq<(Seq<char>, Seq<char>)> {
    let ls = split_lines(data);
    line_entries(ls, ls.len() as int)
}

fn find_char_from(s: &Vec<char>, c: char, i: usize) -> (r: usize)
    requires
        i <= s@.len(),
    ensures
        r == find_char(s@, c, i as int),
        i <= r <= s@.len(),
{
    let mut j = i;
    while j < s.len() && s[j] != c
        invariant
            i <= j <= s@.len(),
            find_char(s@, c, i as int) == find_char(s@, c, j as int),
        decreases s@.len() - j,
    {
        j = j + 1;
    }
    j
}

fn front_spaces(s: &Vec<char>, i: usize) -> (r: usize)
    requires
        i <= s@.len(),
    ensures
        r == space_front(s@, i as int),
        i <= r <= s@.len(),
{
    let mut j = i;
    while j < s.len() && space_char(s[j])
        invariant
            i <= j <= s@.len(),
            space_front(s@, i as int) == space_front(s@, j as int),
        decreases s@.len() - j,
    {
        j = j + 1;
    }
    j
}

fn back_spaces(s: &Vec<char>, j0: usize) -> (r: usize)
    requires
        j0 <= s@.len(),
    ensures
        r == space_back(s@, j0 as int),
        r <= j0,
{
    let mut j = j0;
    while j > 0 && space_char(s[j - 1])
        invariant
            j <= j0 <= s@.len(),
            space_back(s@, j0 as int) == space_back(s@, j as int),
        decreases j,
    {
        j = j - 1;
    }
    j
}

fn front_numeric(s: &Vec<char>, i: usize) -> (r: usize)
    requires
        i <= s@.len(),
    ensures
        r == numeric_front(s@, i as int),
        i <= r <= s@.len(),
{
    let mut j = i;
    while j < s.len() && is_numeric(s[j])
        invariant
            i <= j <= s@.len(),
            numeric_front(s@, i as int) == numeric_front(s@, j as int),
        decreases s@.len() - j,
    {
        j = j + 1;
    }
    j
}

fn find_last_quote(s: &Vec<char>) -> (r: Option<usize>)
    ensures
        match r {
            Some(q) => last_quote(s@, s@.len() as int) == q as int && q < s@.len(),
            None => last_quote(s@, s@.len() as int) == -1,
        },
{
    let mut j = s.len();
    while j > 0
        invariant
            j <= s@.len(),
            last_quote(s@, s@.len() as int) == last_quote(s@, j as int),
        decreases j,
    {
        if s[j - 1] == '"' {
            return Some(j - 1);
        }
        j = j - 1;
    }
    None
}

fn chars_range(s: &Vec<char>, a: usize, b: usize) -> (r: Vec<char>)
    requires
        a <= b <= s@.len(),
    ensures
        r@ == s@.subrange(a as int, b as int),
{
    let mut r: Vec<char> = Vec::new();
    let mut j = a;
    while j < b
        invariant
            a <= j <= b <= s@.len(),
            r@ == s@.subrange(a as int, j as int),
        decreases b - j,
    {
        r.push(s[j]);
        assert(r@ =~= s@.subrange(a as int, j + 1));
        j = j + 1;
    }
    r
}

fn at_least_four_bytes(s: &Vec<char>) -> (r: bool)
    ensures
        r == (utf8_len(s@) >= 4),
{
    let mut acc: usize = 0;
    let mut j: usize = 0;
    while j < s.len()
        invariant
            j <= s@.len(),
            acc == utf8_len(s@.take(j as int)),
            acc < 4,
        decreases s@.len() - j,
    {
        assert(s@.take(j + 1).drop_last() =~= s@.take(j as int));
        let c = s[j] as u32;
        let w: usize = if c < 0x80 {
            1
        } else if c < 0x800 {
            2
        } else if c < 0x10000 {
            3
        } else {
            4
        };
        acc = acc + w;
        j = j + 1;
        if acc >= 4 {
            proof {
                lemma_utf8_len_grows(s@, j as int);
            }
            return true;
        }
    }
    assert(s@.take(s@.len() as int) =~= s@);
    false
}

proof fn lemma_utf8_len_grows(s: Seq<char>, j: int)
    requires
        0 <= j <= s.len(),
    ensures
        utf8_len(s) >= utf8_len(s.take(j)),
    decreases s.len() - j,
{
    if j < s.len() {
        lemma_utf8_len_grows(s, j + 1);
        assert(s.take(j + 1).drop_last() =~= s.take(j));
    } else {
        assert(s.take(j) =~= s);
    }
}

fn entry_text_of(y: &Vec<char>) -> (r: Vec<char>)
    ensures
        r@ == entry_text(y@),
{
    let n = front_numeric(y, 0);
    let v1 = chars_range(y, n, y.len());
    let sp = front_spaces(&v1, 0);
    let v2 = chars_range(&v1, sp, v1.len());
    let v3 = if v2.len() > 0 && v2[v2.len() - 1] == '"' {
        v2
    } else {
        match find_last_quote(&v2) {
            Some(q) => chars_range(&v2, 0, q),
            None => v2,
        }
    };
    let v4 = if v3.len() > 0 && v3[0] == '"' {
        chars_range(&v3, 1, v3.len())
    } else {
        v3
    };
    if v4.len() > 0 && v4[v4.len() - 1] == '"' {
        chars_range(&v4, 0, v4.len() - 1)
    } else {
        v4
    }
}

fn entry_of_line(line: &Vec<char>) -> (r: Option<(String, String)>)
    ensures
        match r {
            Some((k, v)) => line_entry(line@) == Some((k@, v@)),
            None => line_entry(line@) is None,
        },
{
    let a = front_spaces(line, 0);
    let b = back_spaces(line, line.len());
    let t = if a < b {
        chars_range(line, a, b)
    } else {
        Vec::new()
    };
    assert(t@ =~= trimmed(line@));
    if t.len() == 0 || t[0] == '#' {
        return None;
    }
    let c = find_char_from(&t, ':', 0);
    if c >= t.len() || c == 0 {
        return None;
    }
    let key = string_of(&t, 0, c);
    let y = chars_range(&t, c + 1, t.len());
    if at_least_four_bytes(&y) {
        let text = entry_text_of(&y);
        let raw = string_of(&text, 0, text.len());
        assert(text@.subrange(0, text@.len() as int) =~= text@);
        Some((key, preprocess(&raw)))
    } else {
        Some((key, String::new()))
    }
}

proof fn lemma_find_char_shift(s: Seq<char>, c: char, a: int, j: int)
    requires
        0 <= a <= j <= s.len(),
    ensures
        find_char(s, c, j) - a == find_char(s.subrange(a, s.len() as int), c, j - a),
    decreases s.len() - j,
{
    if j < s.len() {
        lemma_find_char_shift(s, c, a, j + 1);
    }
}

proof fn lemma_entries_prefix(ls: Seq<Seq<char>>, l: Seq<char>, k: int)
    requires
        0 <= k <= ls.len(),
    ensures
        line_entries(ls.push(l), k) == line_entries(ls, k),
    decreases k,
{
    if k > 1 {
        lemma_entries_prefix(ls, l, k - 1);
        assert(ls.push(l)[k - 1] == ls[k - 1]);
    }
}

/// Reads a localisation file: a language line, then `key:version "text"` lines; blank
/// lines and comments are skipped, and a later entry for a key hides an earlier one.
pub fn parse_localisation_file(data: &str) -> (r: LocalisationIndex)
    ensures
        r@ == localisation_entries(data@),
{
    let cs = chars_of(data);
    let mut index = LocalisationIndex::new();
    let ghost mut done: Seq<Seq<char>> = seq![];
    let mut start: usize = 0;
    let mut first = true;
    assert(cs@.subrange(0, cs@.len() as int) =~= cs@);
    assert(seq![] + split_lines(cs@) =~= split_lines(cs@));
    while start < cs.len()
        invariant
            start <= cs@.len(),
            first == (done.len() == 0),
            cs@ == data@,
            split_lines(cs@) == done + split_lines(cs@.subrange(start as int, cs@.len() as int)),
            index@ == line_entries(done, done.len() as int),
        decreases cs@.len() - start,
    {
        let ghost rest = cs@.subrange(start as int, cs@.len() as int);
        let i = find_char_from(&cs, '\n', start);
        proof {
            lemma_find_char_shift(cs@, '\n', start as int, start as int);
        }
        let mut end = i;
        if i < cs.len() && end > start && cs[end - 1] == '\r' {
            end = end - 1;
        }
        let line = chars_range(&cs, start, end);
        let next = if i < cs.len() {
            i + 1
        } else {
            cs.len()
        };
        proof {
            let j = i - start;
            if i < cs@.len() {
                assert(rest.take(j) =~= cs@.subrange(start as int, i as int));
                assert(rest.subrange(j + 1, rest.len() as int) =~= cs@.subrange(next as int, cs@.len() as int));
                if end < i {
                    assert(rest.take(j).drop_last() =~= line@);
                } else {
                    assert(rest.take(j) =~= line@);
                }
            } else {
                assert(rest =~= line@);
                assert(cs@.subrange(next as int, cs@.len() as int) =~= seq![]);
            }
            assert(split_lines(rest) == seq![line@] + split_lines(cs@.subrange(next as int, cs@.len() as int)));
            assert(done + split_lines(rest) =~= done.push(line@) + split_lines(cs@.subrange(next as int, cs@.len() as int)));
            lemma_entries_prefix(done, line@, done.len() as int);
        }
        if !first {
            match entry_of_line(&line) {
                Some((k, v)) => {
                    index.insert(k, v);
                },
                None => {},
            }
        }
        proof {
            done = done.push(line@);
        }
        first = false;
        start = next;
    }
    proof {
        assert(cs@.subrange(start as int, cs@.len() as int) =~= seq![]);
        assert(done + seq![] =~= done);
    }
    index
}

} // verus!
