//! String helpers shared by the whole crate: CSS escaping, CSS-variable
//! reference extraction, splitting, joining and indentation.
//!
//! Every helper has an exact functional specification; the spec functions
//! are the reference semantics and the executable code is proved against
//! them.

use vstd::prelude::*;

verus! {

/// Relies on str's `PartialEq`: two string slices compare equal exactly when
/// their character sequences are equal.
#[verifier::external_body]
pub(crate) fn str_eq(a: &str, b: &str) -> (r: bool)
    ensures
        r == (a@ == b@),
{
    a == b
}

/// ASCII whitespace, the characters the crate treats as blank space.
pub open spec fn is_space_char(c: char) -> bool {
    c == ' ' || c == '\t' || c == '\n' || c == '\r' || c == '\u{b}' || c == '\u{c}'
}

fn exec_is_space_char(c: char) -> (r: bool)
    ensures
        r == is_space_char(c),
{
    c == ' ' || c == '\t' || c == '\n' || c == '\r' || c == '\u{b}' || c == '\u{c}'
}

/// Whether the character is ASCII whitespace.
pub(crate) fn exec_is_space_char_pub(c: char) -> (r: bool)
    ensures
        r == is_space_char(c),
{
    exec_is_space_char(c)
}

/// Whether every character of the line is whitespace.
pub open spec fn is_blank_line(s: Seq<char>) -> bool {
    forall|i: int| 0 <= i < s.len() ==> is_space_char(#[trigger] s[i])
}

/// The number of whitespace characters at the end of `s`.
pub open spec fn trailing_space_count(s: Seq<char>) -> int
    decreases s.len(),
{
    if s.len() > 0 && is_space_char(s.last()) {
        1 + trailing_space_count(s.drop_last())
    } else {
        0
    }
}

proof fn lemma_trailing_space_count_bound(s: Seq<char>)
    ensures
        0 <= trailing_space_count(s) <= s.len(),
    decreases s.len(),
{
    if s.len() > 0 && is_space_char(s.last()) {
        lemma_trailing_space_count_bound(s.drop_last());
    }
}

/// The trailing whitespace count stays within the length.
pub proof fn lemma_trailing_space_bound_pub(s: Seq<char>)
    ensures
        0 <= trailing_space_count(s) <= s.len(),
{
    lemma_trailing_space_count_bound(s);
}

/// `s` with its trailing whitespace removed.
pub open spec fn spec_trim_end(s: Seq<char>) -> Seq<char> {
    s.take(s.len() - trailing_space_count(s))
}

/// Remove trailing whitespace, as the final step of [`indent`].
pub fn trim_end(s: &str) -> (r: String)
    ensures
        r@ == spec_trim_end(s@),
{
    let n = s.unicode_len();
    proof {
        assert(s@.take(n as int) =~= s@);
    }
    let mut k: usize = 0;
    let mut stopped = false;
    while k < n && !stopped
        invariant
            0 <= k <= n,
            n == s@.len(),
            trailing_space_count(s@) == k + trailing_space_count(s@.take(n - k)),
            stopped ==> trailing_space_count(s@.take(n - k)) == 0,
        decreases n - k + (if stopped {
            0int
        } else {
            1int
        }),
    {
        let c = s.get_char(n - 1 - k);
        if exec_is_space_char(c) {
            proof {
                let t = s@.take(n - k as int);
                assert(t.last() == s@[n - 1 - k as int]);
                assert(t.drop_last() =~= s@.take(n - k - 1 as int));
            }
            k = k + 1;
        } else {
            proof {
                let t = s@.take(n - k as int);
                assert(t.last() == s@[n - 1 - k as int]);
                assert(trailing_space_count(t) == 0);
            }
            stopped = true;
        }
    }
    proof {
        if k == n {
            assert(s@.take(0int) =~= Seq::<char>::empty());
        }
        assert(trailing_space_count(s@) == k);
    }
    let out = s.substring_char(0, n - k);
    proof {
        assert(out@ =~= spec_trim_end(s@));
    }
    out.to_owned()
}

/// A sequence holding `n` copies of `c`.
pub open spec fn repeat_char(c: char, n: int) -> Seq<char>
    decreases n,
{
    if n <= 0 {
        Seq::empty()
    } else {
        repeat_char(c, n - 1).push(c)
    }
}

fn make_spaces(n: usize) -> (r: String)
    ensures
        r@ == repeat_char(' ', n as int),
{
    let mut out = String::new();
    let mut i: usize = 0;
    while i < n
        invariant
            0 <= i <= n,
            out@ == repeat_char(' ', i as int),
        decreases n - i,
    {
        out.append(" ");
        proof {
            reveal_strlit(" ");
            assert(out@ =~= repeat_char(' ', i + 1 as int));
        }
        i = i + 1;
    }
    out
}

/// `parts` joined with the separator `sep` between consecutive parts.
pub open spec fn sep_join(parts: Seq<Seq<char>>, sep: Seq<char>) -> Seq<char>
    decreases parts.len(),
{
    if parts.len() == 0 {
        Seq::empty()
    } else if parts.len() == 1 {
        parts[0]
    } else {
        parts[0] + sep + sep_join(parts.drop_first(), sep)
    }
}

/// The views of a vector of strings.
pub open spec fn views_of_strings(parts: Seq<String>) -> Seq<Seq<char>> {
    parts.map_values(|p: String| p@)
}

pub proof fn lemma_views_push(pre: Seq<String>, d: String)
    ensures
        views_of_strings(pre.push(d)) == views_of_strings(pre).push(d@),
{
    assert(views_of_strings(pre.push(d)) =~= views_of_strings(pre).push(d@));
}

/// Join the strings with a separator, as `[_]::join` does.
pub fn join_strings(parts: &Vec<String>, sep: &str) -> (r: String)
    ensures
        r@ == sep_join(views_of_strings(parts@), sep@),
{
    let ghost vs = views_of_strings(parts@);
    let mut out = String::new();
    let mut i: usize = 0;
    while i < parts.len()
        invariant
            0 <= i <= parts.len(),
            vs == views_of_strings(parts@),
            vs.len() == parts@.len(),
            i == 0 ==> out@ == Seq::<char>::empty(),
            i > 0 ==> out@ == sep_join(vs.take(i as int), sep@),
        decreases parts.len() - i,
    {
        if i > 0 {
            out.append(sep);
        }
        out.append(parts[i].as_str());
        proof {
            lemma_sep_join_step(vs, sep@, i as int);
        }
        i = i + 1;
    }
    proof {
        if parts@.len() == 0 {
            assert(sep_join(vs, sep@) == Seq::<char>::empty());
        } else {
            assert(vs.take(vs.len() as int) =~= vs);
        }
    }
    out
}

proof fn lemma_sep_join_step(vs: Seq<Seq<char>>, sep: Seq<char>, i: int)
    requires
        0 <= i < vs.len(),
    ensures
        i == 0 ==> sep_join(vs.take(1), sep) == vs[0],
        i > 0 ==> sep_join(vs.take(i + 1), sep) == sep_join(vs.take(i), sep) + sep + vs[i],
    decreases i,
{
    if i == 0 {
        assert(vs.take(1).len() == 1);
        assert(sep_join(vs.take(1), sep) == vs.take(1)[0]);
    } else if i == 1 {
        let a = vs.take(2);
        assert(a.drop_first() =~= seq![vs[1]]);
        assert(sep_join(a, sep) == a[0] + sep + sep_join(a.drop_first(), sep));
        assert(sep_join(a.drop_first(), sep) == vs[1]);
        assert(sep_join(vs.take(1), sep) == vs.take(1)[0]);
        assert(sep_join(a, sep) == sep_join(vs.take(1), sep) + sep + vs[1]);
    } else {
        let rest = vs.drop_first();
        lemma_sep_join_step(rest, sep, i - 1);
        let a = vs.take(i + 1);
        let b = vs.take(i);
        assert(a.drop_first() =~= rest.take(i));
        assert(b.drop_first() =~= rest.take(i - 1));
        assert(rest[i - 1] == vs[i]);
        assert(sep_join(a, sep) == a[0] + sep + sep_join(rest.take(i), sep));
        assert(sep_join(b, sep) == b[0] + sep + sep_join(rest.take(i - 1), sep));
        assert(sep_join(rest.take(i), sep) == sep_join(rest.take(i - 1), sep) + sep + rest[i - 1]);
        assert(sep_join(a, sep) =~= sep_join(b, sep) + sep + vs[i]);
    }
}

/// Relies on `String::push`: appends exactly one character to the string.
#[verifier::external_body]
pub(crate) fn push_char(s: &mut String, c: char)
    ensures
        final(s)@ == old(s)@.push(c),
{
    s.push(c);
}

/// The characters that carry meaning in a CSS selector and must be escaped
/// with a backslash when they appear inside a class name.
pub open spec fn is_css_escape_char(c: char) -> bool {
    c == '#' || c == '&' || c == '~' || c == '=' || c == '>' || c == '\'' || c == ':' || c == '"'
        || c == '!' || c == ';' || c == ',' || c == '.' || c == '*' || c == '+' || c == '|' || c
        == '[' || c == ']' || c == '(' || c == ')' || c == '/' || c == '^' || c == '$'
}

fn exec_is_css_escape_char(c: char) -> (r: bool)
    ensures
        r == is_css_escape_char(c),
{
    c == '#' || c == '&' || c == '~' || c == '=' || c == '>' || c == '\'' || c == ':' || c == '"'
        || c == '!' || c == ';' || c == ',' || c == '.' || c == '*' || c == '+' || c == '|' || c
        == '[' || c == ']' || c == '(' || c == ')' || c == '/' || c == '^' || c == '$'
}

/// `s` with every meaningful CSS character preceded by a backslash.
pub open spec fn spec_escape_css(s: Seq<char>) -> Seq<char>
    decreases s.len(),
{
    if s.len() == 0 {
        Seq::empty()
    } else if is_css_escape_char(s.last()) {
        spec_escape_css(s.drop_last()).push('\\').push(s.last())
    } else {
        spec_escape_css(s.drop_last()).push(s.last())
    }
}

/// Escape a value so that it can stand inside a CSS class selector.
pub fn escape_css_string(value: &str) -> (r: String)
    ensures
        r@ == spec_escape_css(value@),
{
    let n = value.unicode_len();
    let mut out = String::new();
    let mut i: usize = 0;
    while i < n
        invariant
            0 <= i <= n,
            n == value@.len(),
            out@ == spec_escape_css(value@.take(i as int)),
        decreases n - i,
    {
        let c = value.get_char(i);
        if exec_is_css_escape_char(c) {
            push_char(&mut out, '\\');
        }
        push_char(&mut out, c);
        proof {
            let t = value@.take(i + 1 as int);
            assert(t.drop_last() =~= value@.take(i as int));
            assert(t.last() == value@[i as int]);
        }
        i = i + 1;
    }
    proof {
        assert(value@.take(n as int) =~= value@);
    }
    out
}

/// `s` with every occurrence of the character `from` replaced by the
/// sequence `to`.
pub open spec fn spec_replace_char(s: Seq<char>, from: char, to: Seq<char>) -> Seq<char>
    decreases s.len(),
{
    if s.len() == 0 {
        Seq::empty()
    } else if s.last() == from {
        spec_replace_char(s.drop_last(), from, to) + to
    } else {
        spec_replace_char(s.drop_last(), from, to).push(s.last())
    }
}

/// Replace every occurrence of a character with a string, as
/// `str::replace` does for a `char` pattern.
pub fn replace_char(s: &str, from: char, to: &str) -> (r: String)
    ensures
        r@ == spec_replace_char(s@, from, to@),
{
    let n = s.unicode_len();
    let mut out = String::new();
    let mut i: usize = 0;
    while i < n
        invariant
            0 <= i <= n,
            n == s@.len(),
            out@ == spec_replace_char(s@.take(i as int), from, to@),
        decreases n - i,
    {
        let c = s.get_char(i);
        if c == from {
            out.append(to);
        } else {
            push_char(&mut out, c);
        }
        proof {
            let t = s@.take(i + 1 as int);
            assert(t.drop_last() =~= s@.take(i as int));
            assert(t.last() == s@[i as int]);
        }
        i = i + 1;
    }
    proof {
        assert(s@.take(n as int) =~= s@);
    }
    out
}

/// The decimal digit character for `d`.
pub open spec fn digit_char(d: int) -> char {
    if d == 0 {
        '0'
    } else if d == 1 {
        '1'
    } else if d == 2 {
        '2'
    } else if d == 3 {
        '3'
    } else if d == 4 {
        '4'
    } else if d == 5 {
        '5'
    } else if d == 6 {
        '6'
    } else if d == 7 {
        '7'
    } else if d == 8 {
        '8'
    } else {
        '9'
    }
}

/// The decimal text of a nonnegative integer.
pub open spec fn dec_str(n: int) -> Seq<char>
    decreases n,
{
    if n < 10 {
        seq![digit_char(n)]
    } else {
        dec_str(n / 10).push(digit_char(n % 10))
    }
}

fn exec_digit_char(d: u32) -> (c: char)
    requires
        d < 10,
    ensures
        c == digit_char(d as int),
{
    if d == 0 {
        '0'
    } else if d == 1 {
        '1'
    } else if d == 2 {
        '2'
    } else if d == 3 {
        '3'
    } else if d == 4 {
        '4'
    } else if d == 5 {
        '5'
    } else if d == 6 {
        '6'
    } else if d == 7 {
        '7'
    } else if d == 8 {
        '8'
    } else {
        '9'
    }
}

/// Format a `u32` in decimal, as `u32`'s display implementation does.
pub fn u32_to_string(n: u32) -> (r: String)
    ensures
        r@ == dec_str(n as int),
    decreases n,
{
    if n < 10 {
        let mut out = String::new();
        push_char(&mut out, exec_digit_char(n));
        proof {
            assert(out@ =~= seq![digit_char(n as int)]);
        }
        out
    } else {
        let mut out = u32_to_string(n / 10);
        push_char(&mut out, exec_digit_char(n % 10));
        out
    }
}

/// `s` divided at every occurrence of `sep`; the separators themselves are
/// dropped. The result always holds at least one (possibly empty) part.
pub open spec fn spec_split(s: Seq<char>, sep: char) -> Seq<Seq<char>>
    decreases s.len(),
{
    if s.len() == 0 {
        seq![Seq::empty()]
    } else if s.last() == sep {
        spec_split(s.drop_last(), sep).push(Seq::empty())
    } else {
        let p = spec_split(s.drop_last(), sep);
        p.update(p.len() - 1, p.last().push(s.last()))
    }
}

pub proof fn lemma_split_nonempty(s: Seq<char>, sep: char)
    ensures
        spec_split(s, sep).len() >= 1,
    decreases s.len(),
{
    if s.len() > 0 {
        lemma_split_nonempty(s.drop_last(), sep);
    }
}

/// Divide a string at every occurrence of the separator character, as
/// `str::split` does for a `char` pattern.
pub fn split_string(s: &str, sep: char) -> (r: Vec<String>)
    ensures
        views_of_strings(r@) == spec_split(s@, sep),
{
    let n = s.unicode_len();
    let mut done: Vec<String> = Vec::new();
    let mut cur = String::new();
    let mut i: usize = 0;
    proof {
        assert(views_of_strings(done@).push(cur@) =~= spec_split(s@.take(0int), sep));
    }
    while i < n
        invariant
            0 <= i <= n,
            n == s@.len(),
            views_of_strings(done@).push(cur@) == spec_split(s@.take(i as int), sep),
        decreases n - i,
    {
        let ghost prev = spec_split(s@.take(i as int), sep);
        let c = s.get_char(i);
        if c == sep {
            done.push(cur);
            cur = String::new();
        } else {
            push_char(&mut cur, c);
        }
        proof {
            let t = s@.take(i + 1 as int);
            assert(t.drop_last() =~= s@.take(i as int));
            assert(t.last() == s@[i as int]);
            lemma_split_nonempty(s@.take(i as int), sep);
            if s@[i as int] == sep {
                assert(views_of_strings(done@).push(cur@) =~= spec_split(t, sep));
            } else {
                assert(prev.update(prev.len() - 1, prev.last().push(s@[i as int]))
                    =~= views_of_strings(done@).push(cur@));
            }
        }
        i = i + 1;
    }
    done.push(cur);
    proof {
        assert(s@.take(n as int) =~= s@);
        assert(views_of_strings(done@) =~= spec_split(s@, sep));
    }
    done
}

fn is_blank_str(line: &str) -> (r: bool)
    ensures
        r == is_blank_line(line@),
{
    let n = line.unicode_len();
    let mut i: usize = 0;
    while i < n
        invariant
            0 <= i <= n,
            n == line@.len(),
            forall|j: int| 0 <= j < i ==> is_space_char(#[trigger] line@[j]),
        decreases n - i,
    {
        let c = line.get_char(i);
        if !exec_is_space_char(c) {
            return false;
        }
        i = i + 1;
    }
    true
}

/// One source line after indentation: blank lines collapse to a newline,
/// any other line is prefixed with the padding.
pub open spec fn indent_line(line: Seq<char>, pad: Seq<char>) -> Seq<char> {
    if is_blank_line(line) {
        seq!['\n']
    } else {
        pad + line + seq!['\n']
    }
}

/// All lines after indentation, concatenated.
pub open spec fn cat_indented_lines(lines: Seq<Seq<char>>, pad: Seq<char>) -> Seq<char>
    decreases lines.len(),
{
    if lines.len() == 0 {
        Seq::empty()
    } else {
        cat_indented_lines(lines.drop_last(), pad) + indent_line(lines.last(), pad)
    }
}

/// The whole text indented by `spaces` spaces, with trailing whitespace
/// trimmed.
pub open spec fn spec_indent(s: Seq<char>, spaces: int) -> Seq<char> {
    spec_trim_end(cat_indented_lines(spec_split(s, '\n'), repeat_char(' ', spaces)))
}

/// Indent every non-blank line of the content with the given number of
/// spaces.
pub fn indent(content: &str, spaces: u8) -> (r: String)
    ensures
        r@ == spec_indent(content@, spaces as int),
{
    let pad = make_spaces(spaces as usize);
    let lines = split_string(content, '\n');
    let ghost line_views = views_of_strings(lines@);
    let mut out = String::new();
    let mut i: usize = 0;
    while i < lines.len()
        invariant
            0 <= i <= lines.len(),
            line_views == views_of_strings(lines@),
            line_views.len() == lines@.len(),
            pad@ == repeat_char(' ', spaces as int),
            out@ == cat_indented_lines(line_views.take(i as int), pad@),
        decreases lines.len() - i,
    {
        let line = &lines[i];
        if is_blank_str(line.as_str()) {
            push_char(&mut out, '\n');
        } else {
            out.append(pad.as_str());
            out.append(line.as_str());
            push_char(&mut out, '\n');
        }
        proof {
            let t = line_views.take(i + 1 as int);
            assert(t.drop_last() =~= line_views.take(i as int));
            assert(t.last() == line_views[i as int]);
        }
        i = i + 1;
    }
    proof {
        assert(line_views.take(lines@.len() as int) =~= line_views);
    }
    trim_end(out.as_str())
}

/// The kebab-case form of a string. The exact word-boundary rules are those
/// of the case-conversion crate relied on below; the result is a function of
/// the input characters alone.
pub uninterp spec fn kebab_of(s: Seq<char>) -> Seq<char>;

/// Relies on heck's `str::to_kebab_case`: converts a name to kebab case,
/// depending on the input characters alone.
#[verifier::external_body]
pub fn to_kebab_case(s: &str) -> (r: String)
    ensures
        r@ == kebab_of(s@),
{
    heck::ToKebabCase::to_kebab_case(s)
}

/// A character that may appear in a CSS custom-property name.
pub open spec fn is_css_name_char(c: char) -> bool {
    ('a' <= c && c <= 'z') || ('A' <= c && c <= 'Z') || ('0' <= c && c <= '9') || c == '_' || c
        == '-'
}

fn exec_is_css_name_char(c: char) -> (r: bool)
    ensures
        r == is_css_name_char(c),
{
    ('a' <= c && c <= 'z') || ('A' <= c && c <= 'Z') || ('0' <= c && c <= '9') || c == '_' || c
        == '-'
}

/// The length of the run of name characters starting at `j`.
pub open spec fn name_run_len(s: Seq<char>, j: int) -> int
    decreases s.len() - j,
{
    if j < 0 || j >= s.len() {
        0
    } else if is_css_name_char(s[j]) {
        1 + name_run_len(s, j + 1)
    } else {
        0
    }
}

proof fn lemma_name_run_len_bounds(s: Seq<char>, j: int)
    requires
        0 <= j <= s.len(),
    ensures
        0 <= name_run_len(s, j) <= s.len() - j,
    decreases s.len() - j,
{
    if j < s.len() && is_css_name_char(s[j]) {
        lemma_name_run_len_bounds(s, j + 1);
    }
}

/// The position of the closing parenthesis at or after `k`, unless a line
/// break comes first.
pub open spec fn find_close_paren(s: Seq<char>, k: int) -> Option<int>
    decreases s.len() - k,
{
    if k < 0 || k >= s.len() {
        None
    } else if s[k] == ')' {
        Some(k)
    } else if s[k] == '\n' {
        None
    } else {
        find_close_paren(s, k + 1)
    }
}

proof fn lemma_find_close_paren_bounds(s: Seq<char>, k: int)
    requires
        0 <= k,
    ensures
        find_close_paren(s, k) matches Some(e) ==> k <= e < s.len(),
    decreases s.len() - k,
{
    if 0 <= k < s.len() && s[k] != ')' && s[k] != '\n' {
        lemma_find_close_paren_bounds(s, k + 1);
    }
}

/// Whether `var(` stands (in either letter case) at position `i`.
pub open spec fn is_var_open(s: Seq<char>, i: int) -> bool {
    &&& 0 <= i
    &&& i + 4 <= s.len()
    &&& (s[i] == 'v' || s[i] == 'V')
    &&& (s[i + 1] == 'a' || s[i + 1] == 'A')
    &&& (s[i + 2] == 'r' || s[i + 2] == 'R')
    &&& s[i + 3] == '('
}

/// A `var(--name)` or `var(--name, fallback)` reference starting exactly at
/// position `i`: the captured `--name` and the position just past the
/// reference.
pub open spec fn var_match_at(s: Seq<char>, i: int) -> Option<(Seq<char>, int)> {
    if is_var_open(s, i) && i + 6 <= s.len() && s[i + 4] == '-' && s[i + 5] == '-' {
        let m = name_run_len(s, i + 6);
        let j = i + 6 + m;
        if m >= 1 && j < s.len() && s[j] == ')' {
            Some((s.subrange(i + 4, j), j + 1))
        } else if m >= 1 && j < s.len() && s[j] == ',' {
            match find_close_paren(s, j + 1) {
                Some(e) => Some((s.subrange(i + 4, j), e + 1)),
                None => None,
            }
        } else {
            None
        }
    } else {
        None
    }
}

/// Every captured `--name`, scanning left to right and resuming after each
/// reference found.
pub open spec fn scan_css_vars(s: Seq<char>, i: int) -> Seq<Seq<char>>
    decreases s.len() - i,
{
    if i < 0 || i >= s.len() {
        Seq::empty()
    } else {
        match var_match_at(s, i) {
            Some((cap, end)) => {
                let next = if i < end && end <= s.len() {
                    end
                } else {
                    i + 1
                };
                seq![cap] + scan_css_vars(s, next)
            },
            None => scan_css_vars(s, i + 1),
        }
    }
}

/// The sequence with later duplicates removed; the first occurrence keeps
/// its place.
pub open spec fn dedup_seqs(xs: Seq<Seq<char>>) -> Seq<Seq<char>>
    decreases xs.len(),
{
    if xs.len() == 0 {
        Seq::empty()
    } else {
        let rest = dedup_seqs(xs.drop_last());
        if rest.contains(xs.last()) {
            rest
        } else {
            rest.push(xs.last())
        }
    }
}

/// The distinct CSS custom-property names referenced through `var(...)` in
/// the text, in order of first appearance.
pub open spec fn css_variables_of(s: Seq<char>) -> Seq<Seq<char>> {
    dedup_seqs(scan_css_vars(s, 0))
}

/// Removing duplicates leaves pairwise-distinct entries and keeps exactly
/// the members of the input.
pub proof fn lemma_dedup_seqs_props(xs: Seq<Seq<char>>)
    ensures
        forall|i: int, j: int|
            0 <= i < j < dedup_seqs(xs).len() ==> #[trigger] dedup_seqs(xs)[i]
                != #[trigger] dedup_seqs(xs)[j],
        forall|x: Seq<char>| #[trigger] dedup_seqs(xs).contains(x) <==> xs.contains(x),
    decreases xs.len(),
{
    if xs.len() > 0 {
        lemma_dedup_seqs_props(xs.drop_last());
        let rest = dedup_seqs(xs.drop_last());
        let whole = dedup_seqs(xs);
        assert forall|x: Seq<char>| xs.contains(x) implies #[trigger] whole.contains(x) by {
            let w = choose|w: int| 0 <= w < xs.len() && xs[w] == x;
            if w < xs.len() - 1 {
                assert(xs.drop_last()[w] == x);
                assert(xs.drop_last().contains(x));
                assert(rest.contains(x));
                if !rest.contains(xs.last()) {
                    let v = choose|v: int| 0 <= v < rest.len() && rest[v] == x;
                    assert(whole[v] == x);
                } else {
                    assert(whole == rest);
                }
            } else {
                if rest.contains(xs.last()) {
                    assert(whole == rest);
                } else {
                    assert(whole.last() == x);
                }
            }
        }
        assert forall|x: Seq<char>| #[trigger] whole.contains(x) implies xs.contains(x) by {
            let w = choose|w: int| 0 <= w < whole.len() && whole[w] == x;
            if w < rest.len() {
                assert(rest[w] == x);
                assert(rest.contains(x));
                assert(xs.drop_last().contains(x));
                let v = choose|v: int| 0 <= v < xs.drop_last().len() && xs.drop_last()[v] == x;
                assert(xs[v] == x);
            } else {
                assert(x == xs.last());
                assert(xs[xs.len() - 1] == x);
            }
        }
        if !rest.contains(xs.last()) {
            assert forall|i: int, j: int| 0 <= i < j < whole.len() implies #[trigger] whole[i]
                != #[trigger] whole[j] by {
                if j < rest.len() {
                    assert(whole[i] == rest[i] && whole[j] == rest[j]);
                } else {
                    assert(whole[i] == rest[i]);
                    assert(rest.contains(rest[i]));
                    assert(whole[j] == xs.last());
                }
            }
        }
    }
}

/// No two strings of the sequence read the same.
pub open spec fn no_dup_views(s: Seq<String>) -> bool {
    forall|i: int, j: int| 0 <= i < j < s.len() ==> (#[trigger] s[i])@ != (#[trigger] s[j])@
}

/// Append every item that is not already present; the result stays free of
/// duplicates and holds exactly the union of both inputs.
pub fn extend_unique(acc: &mut Vec<String>, items: &Vec<String>)
    requires
        no_dup_views(old(acc)@),
    ensures
        no_dup_views(final(acc)@),
        forall|x: Seq<char>|
            #[trigger] views_of_strings(final(acc)@).contains(x) <==> (views_of_strings(
                old(acc)@,
            ).contains(x) || views_of_strings(items@).contains(x)),
        final(acc)@.len() >= old(acc)@.len(),
        forall|i: int| 0 <= i < old(acc)@.len() ==> final(acc)@[i] == old(acc)@[i],
{
    let mut i: usize = 0;
    while i < items.len()
        invariant
            0 <= i <= items@.len(),
            no_dup_views(acc@),
            acc@.len() >= old(acc)@.len(),
            forall|j: int| 0 <= j < old(acc)@.len() ==> acc@[j] == old(acc)@[j],
            forall|x: Seq<char>|
                #[trigger] views_of_strings(acc@).contains(x) <==> (views_of_strings(
                    old(acc)@,
                ).contains(x) || views_of_strings(items@.take(i as int)).contains(x)),
        decreases items@.len() - i,
    {
        let ghost pre = acc@;
        let present = contains_string(acc, items[i].as_str());
        if !present {
            acc.push(items[i].clone());
            proof {
                lemma_views_push(pre, acc@.last());
                assert forall|a: int, b: int| 0 <= a < b < acc@.len() implies (
                #[trigger] acc@[a])@ != (#[trigger] acc@[b])@ by {
                    if b == acc@.len() - 1 {
                        assert(views_of_strings(pre)[a] == pre[a]@);
                        assert(acc@[a] == pre[a]);
                        assert(acc@[b]@ == items@[i as int]@);
                    } else {
                        assert(acc@[a] == pre[a]);
                        assert(acc@[b] == pre[b]);
                    }
                }
            }
        }
        proof {
            let tv = views_of_strings(items@.take(i + 1 as int));
            let tp = views_of_strings(items@.take(i as int));
            assert forall|x: Seq<char>| #[trigger] tv.contains(x) implies (tp.contains(x) || x
                == items@[i as int]@) by {
                let w = choose|w: int| 0 <= w < tv.len() && tv[w] == x;
                if w < i {
                    assert(tp[w] == x);
                }
            }
            assert forall|x: Seq<char>| tp.contains(x) implies #[trigger] tv.contains(x) by {
                let w = choose|w: int| 0 <= w < tp.len() && tp[w] == x;
                assert(tv[w] == x);
            }
            assert(tv.contains(items@[i as int]@)) by {
                assert(tv[i as int] == items@[i as int]@);
            }
            if !present {
                assert forall|x: Seq<char>| #[trigger] views_of_strings(acc@).contains(x) implies (
                views_of_strings(pre).contains(x) || x == items@[i as int]@) by {
                    let w = choose|w: int|
                        0 <= w < acc@.len() && views_of_strings(acc@)[w] == x;
                    if w < pre.len() {
                        assert(views_of_strings(pre)[w] == x);
                    }
                }
                assert(views_of_strings(acc@).contains(items@[i as int]@)) by {
                    assert(views_of_strings(acc@).last() == items@[i as int]@);
                }
                assert forall|x: Seq<char>| views_of_strings(pre).contains(x) implies #[trigger]
                views_of_strings(acc@).contains(x) by {
                    let w = choose|w: int|
                        0 <= w < pre.len() && views_of_strings(pre)[w] == x;
                    assert(views_of_strings(acc@)[w] == x);
                }
            }
        }
        i = i + 1;
    }
    proof {
        assert(items@.take(items@.len() as int) =~= items@);
    }
}

/// Whether the vector holds a string whose characters are `x`.
pub fn contains_string(v: &Vec<String>, x: &str) -> (r: bool)
    ensures
        r == views_of_strings(v@).contains(x@),
{
    let mut i: usize = 0;
    while i < v.len()
        invariant
            0 <= i <= v.len(),
            forall|j: int| 0 <= j < i ==> views_of_strings(v@)[j] != x@,
        decreases v.len() - i,
    {
        if str_eq(v[i].as_str(), x) {
            assert(views_of_strings(v@)[i as int] == x@);
            return true;
        }
        i = i + 1;
    }
    false
}

#[verifier::loop_isolation(false)]
fn try_var_match(s: &str, i: usize) -> (r: Option<(String, usize)>)
    requires
        i < s@.len(),
    ensures
        match r {
            Some(m) => var_match_at(s@, i as int) == Some((m.0@, m.1 as int)) && i < m.1 && m.1
                <= s@.len(),
            None => var_match_at(s@, i as int) is None,
        },
{
    let n = s.unicode_len();
    if n - i < 6 {
        return None;
    }
    let c0 = s.get_char(i);
    let c1 = s.get_char(i + 1);
    let c2 = s.get_char(i + 2);
    let c3 = s.get_char(i + 3);
    if !((c0 == 'v' || c0 == 'V') && (c1 == 'a' || c1 == 'A') && (c2 == 'r' || c2 == 'R') && c3
        == '(') {
        return None;
    }
    if s.get_char(i + 4) != '-' || s.get_char(i + 5) != '-' {
        return None;
    }
    // Measure the run of name characters after the two dashes.
    let mut m: usize = 0;
    proof {
        lemma_name_run_len_bounds(s@, i + 6);
    }
    let mut run_done = false;
    while !run_done
        invariant
            0 <= m,
            i + 6 + m <= n,
            n == s@.len(),
            name_run_len(s@, i + 6) == m + name_run_len(s@, i + 6 + m),
            run_done ==> name_run_len(s@, i + 6 + m) == 0,
        decreases n - (i + 6 + m) + (if run_done {
            0int
        } else {
            1int
        }),
    {
        if i + 6 + m < n {
            let c = s.get_char(i + 6 + m);
            if exec_is_css_name_char(c) {
                m = m + 1;
            } else {
                run_done = true;
            }
        } else {
            run_done = true;
        }
    }
    if m == 0 {
        return None;
    }
    let j = i + 6 + m;
    if j >= n {
        return None;
    }
    let cj = s.get_char(j);
    if cj == ')' {
        let cap = s.substring_char(i + 4, j).to_owned();
        Some((cap, j + 1))
    } else if cj == ',' {
        // Look for the closing parenthesis on the same line.
        let mut k: usize = j + 1;
        proof {
            lemma_find_close_paren_bounds(s@, j + 1 as int);
        }
        while k < n
            invariant
                j + 1 <= k <= n,
                n == s@.len(),
                find_close_paren(s@, j + 1 as int) == find_close_paren(s@, k as int),
            decreases n - k,
        {
            let ck = s.get_char(k);
            if ck == ')' {
                let cap = s.substring_char(i + 4, j).to_owned();
                proof {
                    lemma_find_close_paren_bounds(s@, j + 1 as int);
                }
                return Some((cap, k + 1));
            } else if ck == '\n' {
                return None;
            }
            k = k + 1;
        }
        None
    } else {
        None
    }
}

/// Collect the distinct CSS custom properties referenced through `var(...)`
/// in the value, in order of first appearance.
pub fn get_css_variables_from_string(value: &str) -> (r: Vec<String>)
    ensures
        views_of_strings(r@) == css_variables_of(value@),
{
    let n = value.unicode_len();
    let mut caps: Vec<String> = Vec::new();
    let mut i: usize = 0;
    while i < n
        invariant
            0 <= i <= n,
            n == value@.len(),
            scan_css_vars(value@, 0) == views_of_strings(caps@) + scan_css_vars(
                value@,
                i as int,
            ),
        decreases n - i,
    {
        match try_var_match(value, i) {
            Some(found) => {
                let ghost pre = views_of_strings(caps@);
                caps.push(found.0);
                proof {
                    assert(scan_css_vars(value@, i as int) =~= seq![found.0@] + scan_css_vars(
                        value@,
                        found.1 as int,
                    ));
                    assert(views_of_strings(caps@) =~= pre.push(found.0@));
                    assert(pre + (seq![found.0@] + scan_css_vars(value@, found.1 as int))
                        =~= views_of_strings(caps@) + scan_css_vars(value@, found.1 as int));
                }
                i = found.1;
            },
            None => {
                i = i + 1;
            },
        }
    }
    proof {
        assert(scan_css_vars(value@, i as int) =~= Seq::<Seq<char>>::empty());
        assert(views_of_strings(caps@) + Seq::<Seq<char>>::empty() =~= views_of_strings(caps@));
    }
    // Keep only the first occurrence of each name.
    let mut out: Vec<String> = Vec::new();
    let mut k: usize = 0;
    proof {
        assert(views_of_strings(caps@).take(0int) =~= Seq::<Seq<char>>::empty());
    }
    while k < caps.len()
        invariant
            0 <= k <= caps.len(),
            views_of_strings(caps@) == scan_css_vars(value@, 0),
            views_of_strings(out@) == dedup_seqs(views_of_strings(caps@).take(k as int)),
        decreases caps.len() - k,
    {
        let ghost pre = views_of_strings(out@);
        let hit = contains_string(&out, caps[k].as_str());
        if !hit {
            let item = caps[k].clone();
            out.push(item);
        }
        proof {
            let t = views_of_strings(caps@).take(k + 1 as int);
            assert(t.drop_last() =~= views_of_strings(caps@).take(k as int));
            assert(t.last() == views_of_strings(caps@)[k as int]);
            if !hit {
                assert(views_of_strings(out@) =~= pre.push(views_of_strings(caps@)[k as int]));
            }
        }
        k = k + 1;
    }
    proof {
        assert(views_of_strings(caps@).take(caps@.len() as int) =~= views_of_strings(caps@));
    }
    out
}

/// The first position of `x` among the views.
pub open spec fn find_view(s: Seq<Seq<char>>, x: Seq<char>) -> Option<int>
    decreases s.len(),
{
    if s.len() == 0 {
        None
    } else if s[0] == x {
        Some(0int)
    } else {
        match find_view(s.drop_first(), x) {
            Some(i) => Some(i + 1),
            None => None,
        }
    }
}

pub proof fn lemma_find_view(s: Seq<Seq<char>>, x: Seq<char>)
    ensures
        match find_view(s, x) {
            Some(i) => 0 <= i < s.len() && s[i] == x && forall|j: int|
                0 <= j < i ==> #[trigger] s[j] != x,
            None => forall|j: int| 0 <= j < s.len() ==> #[trigger] s[j] != x,
        },
    decreases s.len(),
{
    if s.len() > 0 && s[0] != x {
        lemma_find_view(s.drop_first(), x);
        assert forall|j: int| 1 <= j < s.len() implies s.drop_first()[j - 1] == s[j] by {}
    }
}

/// The first position of a string among a vector of strings.
pub fn position_of_string(v: &Vec<String>, x: &str) -> (r: Option<usize>)
    ensures
        match r {
            Some(i) => find_view(views_of_strings(v@), x@) == Some(i as int),
            None => find_view(views_of_strings(v@), x@) is None,
        },
{
    proof {
        lemma_find_view(views_of_strings(v@), x@);
    }
    let mut i: usize = 0;
    while i < v.len()
        invariant
            0 <= i <= v@.len(),
            forall|j: int| 0 <= j < i ==> #[trigger] views_of_strings(v@)[j] != x@,
        decreases v@.len() - i,
    {
        if str_eq(v[i].as_str(), x) {
            proof {
                lemma_find_view(views_of_strings(v@), x@);
                assert(views_of_strings(v@)[i as int] == x@);
                match find_view(views_of_strings(v@), x@) {
                    Some(f) => {
                        assert(f == i);
                    },
                    None => {
                        assert(false);
                    },
                }
            }
            return Some(i);
        }
        i = i + 1;
    }
    proof {
        lemma_find_view(views_of_strings(v@), x@);
    }
    None
}

} // verus!
