//! The token accumulator: a class name is built by feeding it the tokens
//! of a source chain one at a time, each resolved against the loaded
//! configuration, and rendered as a CSS selector and declaration block.

use vstd::prelude::*;

use crate::config::user::CssValue;
use crate::config::Config;
use crate::utils::{spec_escape_css, escape_css_string, str_eq, views_of_strings};
use vstd::multiset::Multiset;

verus! {

/// Whether a class name has resolved to something renderable.
#[derive(PartialEq, Eq, Structural, Clone, Copy, Debug)]
pub enum Validity {
    Valid,
    Invalid,
    Undefined,
}

/// The argument of a callable class-name expression: one value, or a
/// key/value pair.
#[derive(Debug)]
pub enum ClassArguments {
    Value(String),
    KeyValue(String, String),
}

/// The pure form of an argument: the optional key and the value.
pub open spec fn arg_model(a: ClassArguments) -> (Option<Seq<char>>, Seq<char>) {
    match a {
        ClassArguments::Value(v) => (None, v@),
        ClassArguments::KeyValue(k, v) => (Some(k@), v@),
    }
}

/// The selector text of an argument: the value, or `key\:value`.
pub open spec fn spec_arg_string(m: (Option<Seq<char>>, Seq<char>)) -> Seq<char> {
    match m.0 {
        Some(k) => k + "\\:"@ + m.1,
        None => m.1,
    }
}

impl ClassArguments {
    /// Render the argument as it stands inside a selector.
    pub fn get_string(&self) -> (r: String)
        ensures
            r@ == spec_arg_string(arg_model(*self)),
    {
        match self {
            ClassArguments::Value(value) => value.clone(),
            ClassArguments::KeyValue(key, value) => {
                let mut out = key.clone();
                out.append("\\:");
                out.append(value.as_str());
                proof {
                    assert(out@ =~= spec_arg_string(arg_model(*self)));
                }
                out
            },
        }
    }

    /// The value part of the argument.
    pub fn get_value(&self) -> (r: String)
        ensures
            r@ == arg_model(*self).1,
    {
        match self {
            ClassArguments::Value(value) => value.clone(),
            ClassArguments::KeyValue(_, value) => value.clone(),
        }
    }

    /// Wrap a single trimmed, escaped value.
    pub fn from_value(value: &str) -> (r: Self)
        ensures
            arg_model(r) == (None::<Seq<char>>, spec_escape_css(spec_trim(value@))),
    {
        ClassArguments::Value(escape_css_string(trim_str(value).as_str()))
    }

    /// Wrap a trimmed, escaped key/value pair.
    pub fn from_key_value(key: &str, value: &str) -> (r: Self)
        ensures
            arg_model(r) == (
                Some(spec_escape_css(spec_trim(key@))),
                spec_escape_css(spec_trim(value@)),
            ),
    {
        ClassArguments::KeyValue(
            escape_css_string(trim_str(key).as_str()),
            escape_css_string(trim_str(value).as_str()),
        )
    }

    /// An equal argument.
    pub fn dup(&self) -> (r: Self)
        ensures
            arg_model(r) == arg_model(*self),
    {
        match self {
            ClassArguments::Value(v) => ClassArguments::Value(v.clone()),
            ClassArguments::KeyValue(k, v) => ClassArguments::KeyValue(k.clone(), v.clone()),
        }
    }
}

/// The position of the first `\:` separator at or after `k`.
pub open spec fn find_arg_sep(s: Seq<char>, k: int) -> Option<int>
    decreases s.len() - k,
{
    if k < 0 || k + 2 > s.len() {
        None
    } else if s[k] == '\\' && s[k + 1] == ':' {
        Some(k)
    } else {
        find_arg_sep(s, k + 1)
    }
}

/// What a selector-shaped argument string parses to: brackets are
/// stripped when balanced, one `\:` makes a key/value pair, none makes a
/// plain value, anything else fails.
pub open spec fn spec_args_from_string(s: Seq<char>) -> Option<(Option<Seq<char>>, Seq<char>)> {
    let t0 = spec_trim(s);
    let lead = t0.len() > 0 && t0[0] == '[';
    let t1: Seq<char> = if lead {
        t0.drop_first()
    } else {
        t0
    };
    let trail = t1.len() > 0 && t1.last() == ']';
    let t2: Seq<char> = if trail {
        t1.drop_last()
    } else {
        t1
    };
    if lead != trail {
        None
    } else {
        match find_arg_sep(t2, 0) {
            None => Some((None, t2)),
            Some(i) => {
                let tail = t2.skip(i + 2);
                if find_arg_sep(tail, 0) is Some {
                    None
                } else {
                    Some((Some(t2.take(i)), tail))
                }
            },
        }
    }
}

/// Find the first `\:` separator in the string, if any.
#[verifier::loop_isolation(false)]
fn find_sep_exec(s: &str) -> (r: Option<usize>)
    ensures
        match r {
            Some(i) => find_arg_sep(s@, 0) == Some(i as int) && i + 2 <= s@.len(),
            None => find_arg_sep(s@, 0) is None,
        },
{
    let n = s.unicode_len();
    if n < 2 {
        return None;
    }
    let mut k: usize = 0;
    while k <= n - 2
        invariant
            n >= 2,
            0 <= k <= n - 1,
            find_arg_sep(s@, 0) == find_arg_sep(s@, k as int),
        decreases n - k,
    {
        if s.get_char(k) == '\\' && s.get_char(k + 1) == ':' {
            return Some(k);
        }
        k = k + 1;
    }
    None
}

impl ClassArguments {
    /// Parse an argument out of a selector-shaped string: balanced
    /// brackets are stripped, one escaped colon splits a key/value pair.
    pub fn from_string(value: &str) -> (r: Option<Self>)
        ensures
            match r {
                Some(a) => spec_args_from_string(value@) == Some(arg_model(a)),
                None => spec_args_from_string(value@) is None,
            },
    {
        let trimmed = trim_str(value);
        let n0 = trimmed.as_str().unicode_len();
        let lead = n0 > 0 && trimmed.as_str().get_char(0) == '[';
        let t1 = if lead {
            trimmed.as_str().substring_char(1, n0).to_owned()
        } else {
            trimmed
        };
        proof {
            if lead {
                assert(t1@ =~= spec_trim(value@).drop_first());
            }
        }
        let n1 = t1.as_str().unicode_len();
        let trail = n1 > 0 && t1.as_str().get_char(n1 - 1) == ']';
        let t2 = if trail {
            t1.as_str().substring_char(0, n1 - 1).to_owned()
        } else {
            t1
        };
        proof {
            if trail {
                assert(t2@ =~= (if lead {
                    spec_trim(value@).drop_first()
                } else {
                    spec_trim(value@)
                }).drop_last());
            }
        }
        if lead != trail {
            return None;
        }
        match find_sep_exec(t2.as_str()) {
            None => Some(ClassArguments::Value(t2)),
            Some(i) => {
                let n2 = t2.as_str().unicode_len();
                let tail = t2.as_str().substring_char(i + 2, n2).to_owned();
                proof {
                    assert(tail@ =~= t2@.skip(i + 2));
                }
                match find_sep_exec(tail.as_str()) {
                    Some(_) => None,
                    None => {
                        let key = t2.as_str().substring_char(0, i).to_owned();
                        proof {
                            assert(key@ =~= t2@.take(i as int));
                        }
                        Some(ClassArguments::KeyValue(key, tail))
                    },
                }
            },
        }
    }
}

/// The position of the first `::` separator at or after `k`.
pub open spec fn find_dom_sep(s: Seq<char>, k: int) -> Option<int>
    decreases s.len() - k,
{
    if k < 0 || k + 2 > s.len() {
        None
    } else if s[k] == ':' && s[k + 1] == ':' {
        Some(k)
    } else {
        find_dom_sep(s, k + 1)
    }
}

proof fn lemma_find_dom_sep_bounds(s: Seq<char>, k: int)
    requires
        0 <= k,
    ensures
        find_dom_sep(s, k) matches Some(i) ==> k <= i && i + 2 <= s.len(),
    decreases s.len() - k,
{
    if 0 <= k && k + 2 <= s.len() && !(s[k] == ':' && s[k + 1] == ':') {
        lemma_find_dom_sep_bounds(s, k + 1);
    }
}

/// `s` divided at every `::`, scanning left to right.
pub open spec fn spec_split_dom(s: Seq<char>) -> Seq<Seq<char>>
    decreases s.len(),
{
    match find_dom_sep(s, 0) {
        None => seq![s],
        Some(i) => {
            let next = if 0 <= i && i + 2 <= s.len() {
                s.skip(i + 2)
            } else {
                Seq::empty()
            };
            seq![s.take(i)] + spec_split_dom(next)
        },
    }
}

/// Find the first `::` in the string.
#[verifier::loop_isolation(false)]
fn find_dom_sep_exec(s: &str) -> (r: Option<usize>)
    ensures
        match r {
            Some(i) => find_dom_sep(s@, 0) == Some(i as int) && i + 2 <= s@.len(),
            None => find_dom_sep(s@, 0) is None,
        },
{
    let n = s.unicode_len();
    if n < 2 {
        return None;
    }
    let mut k: usize = 0;
    while k <= n - 2
        invariant
            n >= 2,
            0 <= k <= n - 1,
            find_dom_sep(s@, 0) == find_dom_sep(s@, k as int),
        decreases n - k,
    {
        if s.get_char(k) == ':' && s.get_char(k + 1) == ':' {
            return Some(k);
        }
        k = k + 1;
    }
    None
}

/// Divide a string at every `::`.
#[verifier::loop_isolation(false)]
fn split_dom_string(s: &str) -> (r: Vec<String>)
    ensures
        crate::utils::views_of_strings(r@) == spec_split_dom(s@),
        r@.len() >= 1,
    decreases s@.len(),
{
    match find_dom_sep_exec(s) {
        None => {
            let mut out: Vec<String> = Vec::new();
            out.push(s.to_owned());
            proof {
                assert(crate::utils::views_of_strings(out@) =~= seq![s@]);
            }
            out
        },
        Some(i) => {
            let n = s.unicode_len();
            let head = s.substring_char(0, i).to_owned();
            let tail = s.substring_char(i + 2, n);
            proof {
                lemma_find_dom_sep_bounds(s@, 0);
                assert(head@ =~= s@.take(i as int));
                assert(tail@ =~= s@.skip(i + 2));
            }
            let rest = split_dom_string(tail);
            let mut out: Vec<String> = Vec::new();
            out.push(head);
            let mut k: usize = 0;
            while k < rest.len()
                invariant
                    0 <= k <= rest@.len(),
                    out@.len() == k + 1,
                    crate::utils::views_of_strings(out@) == seq![s@.take(i as int)]
                        + crate::utils::views_of_strings(rest@).take(k as int),
                decreases rest@.len() - k,
            {
                let ghost pre = out@;
                out.push(rest[k].clone());
                proof {
                    crate::utils::lemma_views_push(pre, out@.last());
                    assert(crate::utils::views_of_strings(out@) =~= seq![s@.take(i as int)]
                        + crate::utils::views_of_strings(rest@).take(k + 1 as int));
                }
                k = k + 1;
            }
            proof {
                assert(crate::utils::views_of_strings(rest@).take(rest@.len() as int)
                    =~= crate::utils::views_of_strings(rest@));
                assert(crate::utils::views_of_strings(out@) =~= spec_split_dom(s@));
            }
            out
        },
    }
}

/// The number of leading whitespace characters.
pub open spec fn leading_space_count(s: Seq<char>) -> int
    decreases s.len(),
{
    if s.len() > 0 && crate::utils::is_space_char(s[0]) {
        1 + leading_space_count(s.drop_first())
    } else {
        0
    }
}

proof fn lemma_leading_space_count_bound(s: Seq<char>)
    ensures
        0 <= leading_space_count(s) <= s.len(),
    decreases s.len(),
{
    if s.len() > 0 && crate::utils::is_space_char(s[0]) {
        lemma_leading_space_count_bound(s.drop_first());
    }
}

/// `s` with leading and trailing whitespace removed.
pub open spec fn spec_trim(s: Seq<char>) -> Seq<char> {
    crate::utils::spec_trim_end(s.skip(leading_space_count(s)))
}

proof fn lemma_leading_chars(s: Seq<char>)
    ensures
        forall|i: int| 0 <= i < leading_space_count(s) ==> crate::utils::is_space_char(#[trigger] s[i]),
    decreases s.len(),
{
    lemma_leading_space_count_bound(s);
    if s.len() > 0 && crate::utils::is_space_char(s[0]) {
        lemma_leading_chars(s.drop_first());
        assert forall|i: int| 0 <= i < leading_space_count(s) implies crate::utils::is_space_char(
            #[trigger] s[i],
        ) by {
            if i > 0 {
                assert(s.drop_first()[i - 1] == s[i]);
            }
        }
    }
}

proof fn lemma_trailing_all(t: Seq<char>)
    requires
        crate::utils::trailing_space_count(t) == t.len(),
    ensures
        crate::utils::is_blank_line(t),
    decreases t.len(),
{
    if t.len() > 0 {
        lemma_trailing_all(t.drop_last());
        assert forall|i: int| 0 <= i < t.len() implies crate::utils::is_space_char(
            #[trigger] t[i],
        ) by {
            if i < t.len() - 1 {
                assert(t.drop_last()[i] == t[i]);
            }
        }
    }
}

proof fn lemma_blank_leading(s: Seq<char>)
    requires
        crate::utils::is_blank_line(s),
    ensures
        leading_space_count(s) == s.len(),
    decreases s.len(),
{
    if s.len() > 0 {
        assert(crate::utils::is_space_char(s[0]));
        assert(crate::utils::is_blank_line(s.drop_first())) by {
            assert forall|i: int| 0 <= i < s.drop_first().len() implies
            crate::utils::is_space_char(#[trigger] s.drop_first()[i]) by {
                assert(s.drop_first()[i] == s[i + 1]);
            }
        }
        lemma_blank_leading(s.drop_first());
    }
}

proof fn lemma_blank_trailing(s: Seq<char>)
    requires
        crate::utils::is_blank_line(s),
    ensures
        crate::utils::trailing_space_count(s) == s.len(),
    decreases s.len(),
{
    if s.len() > 0 {
        assert(crate::utils::is_space_char(s.last()));
        assert(crate::utils::is_blank_line(s.drop_last())) by {
            assert forall|i: int| 0 <= i < s.drop_last().len() implies
            crate::utils::is_space_char(#[trigger] s.drop_last()[i]) by {
                assert(s.drop_last()[i] == s[i]);
            }
        }
        lemma_blank_trailing(s.drop_last());
    }
}

/// Trimmed text is empty exactly when the text is blank.
pub proof fn lemma_trim_blank(s: Seq<char>)
    ensures
        (spec_trim(s).len() == 0) == crate::utils::is_blank_line(s),
{
    lemma_leading_space_count_bound(s);
    let lead = leading_space_count(s);
    let rest = s.skip(lead);
    crate::utils::lemma_trailing_space_bound_pub(rest);
    if spec_trim(s).len() == 0 {
        assert(crate::utils::trailing_space_count(rest) == rest.len());
        lemma_trailing_all(rest);
        lemma_leading_chars(s);
        assert forall|i: int| 0 <= i < s.len() implies crate::utils::is_space_char(
            #[trigger] s[i],
        ) by {
            if i >= lead {
                assert(rest[i - lead] == s[i]);
            }
        }
    }
    if crate::utils::is_blank_line(s) {
        lemma_blank_leading(s);
        assert(rest =~= Seq::<char>::empty());
        assert(spec_trim(s).len() == 0);
    }
}

/// Trim whitespace from both ends.
#[verifier::loop_isolation(false)]
pub fn trim_str(s: &str) -> (r: String)
    ensures
        r@ == spec_trim(s@),
{
    let n = s.unicode_len();
    proof {
        lemma_leading_space_count_bound(s@);
        assert(s@.skip(0int) =~= s@);
    }
    let mut k: usize = 0;
    let mut stopped = false;
    while k < n && !stopped
        invariant
            0 <= k <= n,
            leading_space_count(s@) == k + leading_space_count(s@.skip(k as int)),
            stopped ==> leading_space_count(s@.skip(k as int)) == 0,
        decreases n - k + (if stopped {
            0int
        } else {
            1int
        }),
    {
        let c = s.get_char(k);
        if crate::utils::exec_is_space_char_pub(c) {
            proof {
                let t = s@.skip(k as int);
                assert(t[0] == s@[k as int]);
                assert(t.drop_first() =~= s@.skip(k + 1 as int));
            }
            k = k + 1;
        } else {
            proof {
                let t = s@.skip(k as int);
                assert(t[0] == s@[k as int]);
            }
            stopped = true;
        }
    }
    proof {
        if k == n {
            assert(s@.skip(n as int) =~= Seq::<char>::empty());
        }
        assert(leading_space_count(s@) == k);
    }
    let tail = s.substring_char(k, n);
    proof {
        assert(tail@ =~= s@.skip(k as int));
    }
    crate::utils::trim_end(tail)
}

/// Score weight of a named value.
pub const VALUE_WEIGHT: u64 = 1;

/// Score weight of an atom.
pub const ATOM_WEIGHT: u64 = 100;

/// Score weight of a modifier.
pub const MODIFIER_WEIGHT: u64 = 10000;

/// Score weight of a parent modifier.
pub const PARENT_MODIFIER_WEIGHT: u64 = 100000;

/// Score weight of a media query.
pub const MEDIA_QUERY_WEIGHT: u64 = 1000000;

/// Score weight of a breakpoint.
pub const BREAKPOINT_WEIGHT: u64 = 10000000;

/// The largest size any configuration collection may have; it keeps every
/// score comfortably inside a machine word.
pub const COLLECTION_LIMIT: u64 = 1048576;

/// The view of an optional string.
pub open spec fn opt_view(o: Option<String>) -> Option<Seq<char>> {
    match o {
        Some(s) => Some(s@),
        None => None,
    }
}

/// The pure form of a class name: every field at the level of character
/// sequences. The laws of the accumulator are stated over this form.
pub ghost struct ClassModel {
    pub breakpoint: Option<Seq<char>>,
    pub media_query: Option<Seq<char>>,
    pub parent_modifier: Option<Seq<char>>,
    pub modifiers: Seq<Seq<char>>,
    pub groups: Seq<Seq<char>>,
    pub keyframes: Seq<Seq<char>>,
    pub atom: Option<Seq<char>>,
    pub style_name: Option<Seq<char>>,
    pub shorthand: Option<Seq<char>>,
    pub argument: Option<(Option<Seq<char>>, Seq<char>)>,
    pub validity: Validity,
    pub value: Option<Seq<char>>,
    pub score: int,
}

/// The token accumulator. Tokens fed in one at a time resolve against the
/// configuration; the record becomes valid once a style name, shorthand or
/// argument is attached, and permanently invalid on any conflicting token.
pub struct ClassName<'c> {
    /// The breakpoint name, when one was provided.
    pub breakpoint: Option<String>,
    /// The media-query name, when one was provided.
    pub media_query: Option<String>,
    /// The parent modifier, when one was provided.
    pub parent_modifier: Option<String>,
    /// The modifiers, kept in canonical configuration order.
    pub modifiers: Vec<String>,
    /// The groups inherited from the matched atom.
    pub groups: Vec<String>,
    /// The keyframes inherited from the matched atom.
    pub keyframes: Vec<String>,
    /// The atom name, when one was matched.
    pub atom: Option<String>,
    /// The named value (after its `$`), when one was resolved.
    pub style_name: Option<String>,
    /// The shorthand name (after its `$`), when no atom is involved.
    pub shorthand: Option<String>,
    /// The callable argument, when one was attached.
    pub argument: Option<ClassArguments>,
    /// Whether the record has resolved, failed, or neither yet.
    pub validity: Validity,
    /// The resolved CSS value.
    pub value: Option<CssValue>,
    /// The sort key; see the scoring specification.
    pub score: u64,
    /// The configuration the record resolves against.
    pub config: &'c Config,
}

impl Config {
    /// Every collection a score position can come from is small enough
    /// that scores cannot overflow.
    pub open spec fn bounded(&self) -> bool {
        &&& self.modifiers@.len() <= COLLECTION_LIMIT
        &&& self.user.breakpoints@.len() <= COLLECTION_LIMIT
        &&& self.user.media_queries@.len() <= COLLECTION_LIMIT
        &&& self.user.parent_modifiers@.len() <= COLLECTION_LIMIT
        &&& self.atoms@.len() <= COLLECTION_LIMIT
        &&& forall|i: int|
            0 <= i < self.atoms@.len() ==> (#[trigger] self.atoms@[i]).1.values@.len()
                <= COLLECTION_LIMIT
    }
}

/// The flattened modifier names of the configuration, as views.
pub open spec fn cfg_modifier_views(cfg: Config) -> Seq<Seq<char>> {
    views_of_strings(cfg.modifiers@)
}

/// The score contribution of the breakpoint.
pub open spec fn bp_part(cfg: Config, m: ClassModel) -> int {
    match m.breakpoint {
        Some(b) => match crate::ordered_map::find_key(cfg.user.breakpoints@, b) {
            Some(i) => BREAKPOINT_WEIGHT * i,
            None => 0,
        },
        None => 0,
    }
}

/// The score contribution of the media query.
pub open spec fn mq_part(cfg: Config, m: ClassModel) -> int {
    match m.media_query {
        Some(b) => match crate::ordered_map::find_key(cfg.user.media_queries@, b) {
            Some(i) => MEDIA_QUERY_WEIGHT * i,
            None => 0,
        },
        None => 0,
    }
}

/// The score contribution of the parent modifier.
pub open spec fn pm_part(cfg: Config, m: ClassModel) -> int {
    match m.parent_modifier {
        Some(b) => match crate::ordered_map::find_key(cfg.user.parent_modifiers@, b) {
            Some(i) => PARENT_MODIFIER_WEIGHT * i,
            None => 0,
        },
        None => 0,
    }
}

/// The summed score contribution of a modifier list.
pub open spec fn mod_sum(cfg: Config, mods: Seq<Seq<char>>) -> int
    decreases mods.len(),
{
    if mods.len() == 0 {
        0
    } else {
        mod_sum(cfg, mods.drop_last()) + match crate::utils::find_view(
            cfg_modifier_views(cfg),
            mods.last(),
        ) {
            Some(i) => MODIFIER_WEIGHT * i,
            None => 0,
        }
    }
}

/// The score contribution of the atom.
pub open spec fn atom_part(cfg: Config, m: ClassModel) -> int {
    match m.atom {
        Some(a) => match crate::ordered_map::find_key(cfg.atoms@, a) {
            Some(i) => ATOM_WEIGHT * i,
            None => 0,
        },
        None => 0,
    }
}

/// The score contribution of the named value.
pub open spec fn value_part(cfg: Config, m: ClassModel) -> int {
    match (m.atom, m.style_name) {
        (Some(a), Some(sn)) => match crate::ordered_map::find_key(cfg.atoms@, a) {
            Some(i) => match crate::ordered_map::find_key(cfg.atoms@[i].1.values@, sn) {
                Some(v) => VALUE_WEIGHT * v,
                None => 0,
            },
            None => 0,
        },
        _ => 0,
    }
}

/// The score contribution of a callable argument: one past the last named
/// value of the atom, so arbitrary values sort after all named ones.
pub open spec fn arg_part(cfg: Config, m: ClassModel) -> int {
    if m.argument is Some {
        match m.atom {
            Some(a) => match crate::ordered_map::find_key(cfg.atoms@, a) {
                Some(i) => VALUE_WEIGHT * cfg.atoms@[i].1.values@.len(),
                None => 0,
            },
            None => 0,
        }
    } else {
        0
    }
}

/// The score of a class name: each category contributes its weight times
/// its position inside its ordered collection.
pub open spec fn spec_score(cfg: Config, m: ClassModel) -> int {
    bp_part(cfg, m) + mq_part(cfg, m) + pm_part(cfg, m) + mod_sum(cfg, m.modifiers) + atom_part(
        cfg,
        m,
    ) + value_part(cfg, m) + arg_part(cfg, m)
}

/// The position of a modifier name in the configuration's flattened list.
pub open spec fn modifier_position(cfg: Config, name: Seq<char>) -> int {
    crate::utils::find_view(cfg_modifier_views(cfg), name)->Some_0
}

/// The modifiers are known names in strictly increasing configuration
/// order; this is the canonical order that makes selectors independent of
/// the order tokens arrived in.
pub open spec fn modifiers_canonical(cfg: Config, mods: Seq<Seq<char>>) -> bool {
    &&& forall|i: int|
        0 <= i < mods.len() ==> crate::utils::find_view(
            cfg_modifier_views(cfg),
            #[trigger] mods[i],
        ) is Some
    &&& forall|i: int, j: int|
        0 <= i < j < mods.len() ==> modifier_position(cfg, #[trigger] mods[i])
            < modifier_position(cfg, #[trigger] mods[j])
}

impl<'c> ClassName<'c> {
    /// The configuration the class name resolves against.
    pub open spec fn cfg(&self) -> Config {
        *self.config
    }

    /// The pure form of this record.
    pub open spec fn model(&self) -> ClassModel {
        ClassModel {
            breakpoint: opt_view(self.breakpoint),
            media_query: opt_view(self.media_query),
            parent_modifier: opt_view(self.parent_modifier),
            modifiers: views_of_strings(self.modifiers@),
            groups: views_of_strings(self.groups@),
            keyframes: views_of_strings(self.keyframes@),
            atom: opt_view(self.atom),
            style_name: opt_view(self.style_name),
            shorthand: opt_view(self.shorthand),
            argument: match self.argument {
                Some(a) => Some(arg_model(a)),
                None => None,
            },
            validity: self.validity,
            value: match self.value {
                Some(v) => Some(v.spec_get_string()),
                None => None,
            },
            score: self.score as int,
        }
    }

    /// The record's internal invariant: every stored name was found in its
    /// collection, the modifiers stand in canonical order, and the score
    /// is exactly the specified sum.
    pub open spec fn inv(&self) -> bool {
        let m = self.model();
        let cfg = self.cfg();
        &&& cfg.bounded()
        &&& m.score == spec_score(cfg, m)
        &&& modifiers_canonical(cfg, m.modifiers)
        &&& (m.breakpoint matches Some(b) ==> crate::ordered_map::find_key(
            cfg.user.breakpoints@,
            b,
        ) is Some)
        &&& (m.media_query matches Some(b) ==> crate::ordered_map::find_key(
            cfg.user.media_queries@,
            b,
        ) is Some)
        &&& (m.parent_modifier matches Some(b) ==> crate::ordered_map::find_key(
            cfg.user.parent_modifiers@,
            b,
        ) is Some)
        &&& (m.atom matches Some(a) ==> crate::ordered_map::find_key(cfg.atoms@, a) is Some)
        &&& (m.style_name is Some ==> m.atom is Some)
    }

    /// Create an empty accumulator over the configuration.
    pub fn new(config: &'c Config) -> (r: Self)
        requires
            config.bounded(),
        ensures
            r.cfg() == *config,
            r.inv(),
            r.model() == empty_model(),
    {
        let r = ClassName {
            breakpoint: None,
            media_query: None,
            parent_modifier: None,
            modifiers: Vec::new(),
            groups: Vec::new(),
            keyframes: Vec::new(),
            atom: None,
            style_name: None,
            shorthand: None,
            argument: None,
            validity: Validity::Undefined,
            value: None,
            score: 0,
            config,
        };
        proof {
            assert(r.model().modifiers =~= Seq::<Seq<char>>::empty());
            assert(r.model().groups =~= Seq::<Seq<char>>::empty());
            assert(r.model().keyframes =~= Seq::<Seq<char>>::empty());
            assert(r.model() == empty_model());
        }
        r
    }

    /// Whether the record has resolved.
    pub fn is_valid(&self) -> (r: bool)
        ensures
            r == (self.model().validity is Valid),
    {
        matches!(&self.validity, Validity::Valid)
    }

    /// Whether the record has failed.
    pub fn is_invalid(&self) -> (r: bool)
        ensures
            r == (self.model().validity is Invalid),
    {
        matches!(&self.validity, Validity::Invalid)
    }
}

/// Whether the token names a breakpoint.
pub open spec fn token_is_breakpoint(cfg: Config, t: Seq<char>) -> bool {
    crate::ordered_map::find_key(cfg.user.breakpoints@, t) is Some
}

/// Whether the token names a media query.
pub open spec fn token_is_media_query(cfg: Config, t: Seq<char>) -> bool {
    crate::ordered_map::find_key(cfg.user.media_queries@, t) is Some
}

/// Whether the token names a parent modifier.
pub open spec fn token_is_parent_modifier(cfg: Config, t: Seq<char>) -> bool {
    crate::ordered_map::find_key(cfg.user.parent_modifiers@, t) is Some
}

/// Whether the token names a modifier.
pub open spec fn token_is_modifier(cfg: Config, t: Seq<char>) -> bool {
    cfg_modifier_views(cfg).contains(t)
}

/// Whether the token is a value reference (it begins with `$`).
pub open spec fn token_is_value_ref(t: Seq<char>) -> bool {
    t.len() > 0 && t[0] == '$'
}

/// The resolved text of an atom value: a plain value renders as itself, a
/// value table resolves no single value.
pub open spec fn acv_text(v: crate::config::user::AtomCssValue) -> Option<Seq<char>> {
    match v {
        crate::config::user::AtomCssValue::Value(c) => Some(c.spec_get_string()),
        crate::config::user::AtomCssValue::Object(_) => None,
    }
}

/// The record with only its validity changed to invalid.
pub open spec fn invalidated(a: ClassModel) -> ClassModel {
    ClassModel { validity: Validity::Invalid, ..a }
}

/// What one `add_token` call does, stated over the pure models. Token
/// categories are tried in a fixed precedence order; a token that sets an
/// already-set slot, and a token whose atom or `$`-value reference
/// resolves to nothing, make the record permanently invalid.
pub open spec fn add_token_post(cfg: Config, a: ClassModel, b: ClassModel, t: Seq<char>) -> bool {
    if a.validity is Invalid {
        b == a
    } else if token_is_breakpoint(cfg, t) {
        match a.breakpoint {
            Some(_) => b == invalidated(a),
            None => b == ClassModel {
                breakpoint: Some(t),
                score: a.score + BREAKPOINT_WEIGHT * crate::ordered_map::find_key(
                    cfg.user.breakpoints@,
                    t,
                )->Some_0,
                ..a
            },
        }
    } else if token_is_media_query(cfg, t) {
        match a.media_query {
            Some(_) => b == invalidated(a),
            None => b == ClassModel {
                media_query: Some(t),
                score: a.score + MEDIA_QUERY_WEIGHT * crate::ordered_map::find_key(
                    cfg.user.media_queries@,
                    t,
                )->Some_0,
                ..a
            },
        }
    } else if token_is_parent_modifier(cfg, t) {
        match a.parent_modifier {
            Some(_) => b == invalidated(a),
            None => b == ClassModel {
                parent_modifier: Some(t),
                score: a.score + PARENT_MODIFIER_WEIGHT * crate::ordered_map::find_key(
                    cfg.user.parent_modifiers@,
                    t,
                )->Some_0,
                ..a
            },
        }
    } else if token_is_modifier(cfg, t) {
        if a.modifiers.contains(t) {
            b == invalidated(a)
        } else {
            &&& modifiers_canonical(cfg, b.modifiers)
            &&& b.modifiers.to_multiset() == a.modifiers.push(t).to_multiset()
            &&& b == ClassModel {
                modifiers: b.modifiers,
                score: a.score + MODIFIER_WEIGHT * modifier_position(cfg, t),
                ..a
            }
        }
    } else if token_is_value_ref(t) {
        let cleaned = t.drop_first();
        if a.atom is Some {
            match a.style_name {
                Some(_) => b == invalidated(a),
                None => {
                    let meta = cfg.atoms@[crate::ordered_map::find_key(
                        cfg.atoms@,
                        a.atom->Some_0,
                    )->Some_0].1;
                    match crate::ordered_map::find_key(meta.values@, cleaned) {
                        Some(v) => b == ClassModel {
                            style_name: Some(cleaned),
                            value: acv_text(meta.values@[v].1),
                            validity: Validity::Valid,
                            score: a.score + VALUE_WEIGHT * v,
                            ..a
                        },
                        None => b == invalidated(a),
                    }
                },
            }
        } else {
            match a.shorthand {
                Some(_) => b == invalidated(a),
                None => b == ClassModel {
                    shorthand: Some(cleaned),
                    validity: Validity::Valid,
                    ..a
                },
            }
        }
    } else {
        match a.atom {
            Some(_) => b == invalidated(a),
            None => match crate::ordered_map::find_key(cfg.atoms@, t) {
                Some(i) => b == ClassModel {
                    atom: Some(t),
                    keyframes: views_of_strings(cfg.atoms@[i].1.keyframes@),
                    groups: views_of_strings(cfg.atoms@[i].1.groups@),
                    score: a.score + ATOM_WEIGHT * i,
                    ..a
                },
                None => b == invalidated(a),
            },
        }
    }
}

/// In a canonical modifier list, the position of each element is at least
/// its index.
proof fn lemma_positions_at_least_index(cfg: Config, mods: Seq<Seq<char>>, i: int)
    requires
        modifiers_canonical(cfg, mods),
        0 <= i < mods.len(),
    ensures
        modifier_position(cfg, mods[i]) >= i,
    decreases i,
{
    crate::utils::lemma_find_view(cfg_modifier_views(cfg), mods[i]);
    if i > 0 {
        lemma_positions_at_least_index(cfg, mods, i - 1);
        assert(modifier_position(cfg, mods[i - 1]) < modifier_position(cfg, mods[i]));
    }
}

/// A canonical modifier list cannot be longer than the configuration's
/// modifier list.
proof fn lemma_canonical_len(cfg: Config, mods: Seq<Seq<char>>)
    requires
        cfg.bounded(),
        modifiers_canonical(cfg, mods),
    ensures
        mods.len() <= cfg_modifier_views(cfg).len(),
        mods.len() <= COLLECTION_LIMIT,
{
    if mods.len() > 0 {
        let i = mods.len() - 1;
        lemma_positions_at_least_index(cfg, mods, i);
        crate::utils::lemma_find_view(cfg_modifier_views(cfg), mods[i]);
    }
}

/// The modifier score sum is nonnegative and grows at most linearly.
proof fn lemma_mod_sum_linear(cfg: Config, mods: Seq<Seq<char>>)
    ensures
        0 <= mod_sum(cfg, mods) <= MODIFIER_WEIGHT * cfg_modifier_views(cfg).len() * mods.len(),
    decreases mods.len(),
{
    if mods.len() > 0 {
        lemma_mod_sum_linear(cfg, mods.drop_last());
        crate::utils::lemma_find_view(cfg_modifier_views(cfg), mods.last());
        match crate::utils::find_view(cfg_modifier_views(cfg), mods.last()) {
            Some(i) => {
                assert(i < cfg_modifier_views(cfg).len());
                assert(MODIFIER_WEIGHT * i <= MODIFIER_WEIGHT * cfg_modifier_views(cfg).len())
                    by (nonlinear_arith)
                    requires
                        0 <= i < cfg_modifier_views(cfg).len(),
                ;
                assert(MODIFIER_WEIGHT * cfg_modifier_views(cfg).len() * (mods.len() - 1)
                    + MODIFIER_WEIGHT * cfg_modifier_views(cfg).len() == MODIFIER_WEIGHT
                    * cfg_modifier_views(cfg).len() * mods.len()) by (nonlinear_arith);
            },
            None => {
                assert(MODIFIER_WEIGHT * cfg_modifier_views(cfg).len() * (mods.len() - 1)
                    <= MODIFIER_WEIGHT * cfg_modifier_views(cfg).len() * mods.len())
                    by (nonlinear_arith)
                    requires
                        cfg_modifier_views(cfg).len() >= 0 && mods.len() >= 1,
                ;
            },
        }
    }
}

/// Every score stays far below the capacity of its machine word.
pub proof fn lemma_score_bound(cfg: Config, m: ClassModel)
    requires
        cfg.bounded(),
        modifiers_canonical(cfg, m.modifiers),
    ensures
        0 <= spec_score(cfg, m) < 0x80000000000000,
{
    lemma_canonical_len(cfg, m.modifiers);
    lemma_mod_sum_linear(cfg, m.modifiers);
    assert(mod_sum(cfg, m.modifiers) <= MODIFIER_WEIGHT * COLLECTION_LIMIT * COLLECTION_LIMIT)
        by (nonlinear_arith)
        requires
            mod_sum(cfg, m.modifiers) <= MODIFIER_WEIGHT * cfg_modifier_views(cfg).len()
                * m.modifiers.len(),
            0 <= cfg_modifier_views(cfg).len() <= COLLECTION_LIMIT,
            0 <= m.modifiers.len() <= COLLECTION_LIMIT,
    ;
    match m.breakpoint {
        Some(b) => {
            crate::ordered_map::lemma_find_key(cfg.user.breakpoints@, b);
        },
        None => {},
    }
    match m.media_query {
        Some(b) => {
            crate::ordered_map::lemma_find_key(cfg.user.media_queries@, b);
        },
        None => {},
    }
    match m.parent_modifier {
        Some(b) => {
            crate::ordered_map::lemma_find_key(cfg.user.parent_modifiers@, b);
        },
        None => {},
    }
    match m.atom {
        Some(a) => {
            crate::ordered_map::lemma_find_key(cfg.atoms@, a);
            match crate::ordered_map::find_key(cfg.atoms@, a) {
                Some(i) => {
                    match m.style_name {
                        Some(sn) => {
                            crate::ordered_map::lemma_find_key(cfg.atoms@[i].1.values@, sn);
                        },
                        None => {},
                    }
                },
                None => {},
            }
        },
        None => {},
    }
}

/// Inserting into a sequence adds to its multiset like a push.
pub proof fn lemma_insert_multiset<A>(s: Seq<A>, i: int, x: A)
    requires
        0 <= i <= s.len(),
    ensures
        s.insert(i, x).to_multiset() == s.push(x).to_multiset(),
{
    broadcast use vstd::seq_lib::group_to_multiset_ensures;

    let a = s.insert(i, x);
    let b = s.push(x);
    assert(a.remove(i) =~= s);
    assert(b.remove(s.len() as int) =~= s);
    assert(a[i] == x && b[s.len() as int] == x);
    assert(a.to_multiset().remove(x) == s.to_multiset());
    assert(b.to_multiset().remove(x) == s.to_multiset());
    assert(a.contains(x)) by {
        assert(a[i] == x);
    }
    assert(b.contains(x)) by {
        assert(b[s.len() as int] == x);
    }
    assert(a.to_multiset().count(x) > 0);
    assert(b.to_multiset().count(x) > 0);
    assert forall|y: A| true implies a.to_multiset().count(y) == b.to_multiset().count(y) by {
        if y == x {
            assert(a.to_multiset().remove(x).count(x) == a.to_multiset().count(x) - 1);
            assert(b.to_multiset().remove(x).count(x) == b.to_multiset().count(x) - 1);
        } else {
            assert(a.to_multiset().remove(x).count(y) == a.to_multiset().count(y));
            assert(b.to_multiset().remove(x).count(y) == b.to_multiset().count(y));
        }
    }
    assert(a.to_multiset() =~= b.to_multiset());
}

/// The modifier sum over an inserted element grows by that element's
/// contribution.
proof fn lemma_mod_sum_insert(cfg: Config, s: Seq<Seq<char>>, i: int, x: Seq<char>)
    requires
        0 <= i <= s.len(),
    ensures
        mod_sum(cfg, s.insert(i, x)) == mod_sum(cfg, s) + match crate::utils::find_view(
            cfg_modifier_views(cfg),
            x,
        ) {
            Some(p) => MODIFIER_WEIGHT * p,
            None => 0,
        },
    decreases s.len(),
{
    let a = s.insert(i, x);
    if i == s.len() {
        assert(a =~= s.push(x));
        assert(a.drop_last() =~= s);
        assert(a.last() == x);
    } else {
        lemma_mod_sum_insert(cfg, s.drop_last(), i, x);
        assert(a.drop_last() =~= s.drop_last().insert(i, x));
        assert(a.last() == s.last());
    }
}

/// How inserting a string changes the views.
proof fn lemma_views_insert(s: Seq<String>, i: int, x: String)
    requires
        0 <= i <= s.len(),
    ensures
        views_of_strings(s.insert(i, x)) == views_of_strings(s).insert(i, x@),
{
    assert(views_of_strings(s.insert(i, x)) =~= views_of_strings(s).insert(i, x@));
}

impl<'c> ClassName<'c> {
    /// Feed one token into the accumulator. The token is classified in a
    /// fixed precedence order — breakpoint, media query, parent modifier,
    /// modifier, value reference, atom — and either fills its slot,
    /// invalidates the record on a conflict, or does nothing on a miss.
    #[verifier::loop_isolation(false)]
    pub fn add_token(&mut self, token: &str)
        requires
            old(self).inv(),
            old(self).model().argument is None,
        ensures
            final(self).inv(),
            final(self).cfg() == old(self).cfg(),
            add_token_post(old(self).cfg(), old(self).model(), final(self).model(), token@),
    {
        if matches!(&self.validity, Validity::Invalid) {
            return ;
        }
        let cfg = self.config;
        if let Some((pos, _)) = cfg.user.breakpoints.get_full(token) {
            self.add_breakpoint_token(token, pos);
            return ;
        }
        if let Some((pos, _)) = cfg.user.media_queries.get_full(token) {
            self.add_media_query_token(token, pos);
            return ;
        }
        if let Some((pos, _)) = cfg.user.parent_modifiers.get_full(token) {
            self.add_parent_modifier_token(token, pos);
            return ;
        }
        match crate::utils::position_of_string(&cfg.modifiers, token) {
            Some(pos) => {
                proof {
                    crate::utils::lemma_find_view(cfg_modifier_views(*cfg), token@);
                }
                self.add_modifier_token(token, pos);
                return ;
            },
            None => {
                proof {
                    crate::utils::lemma_find_view(cfg_modifier_views(*cfg), token@);
                }
            },
        }
        let n = token.unicode_len();
        if n > 0 && token.get_char(0) == '$' {
            self.add_value_ref_token(token);
            return ;
        }
        self.add_atom_token(token);
    }

    /// The breakpoint branch of `add_token`.
    fn add_breakpoint_token(&mut self, token: &str, pos: usize)
        requires
            old(self).inv(),
            old(self).model().argument is None,
            !(old(self).model().validity is Invalid),
            crate::ordered_map::find_key(old(self).cfg().user.breakpoints@, token@) == Some(
                pos as int,
            ),
            pos < old(self).cfg().user.breakpoints@.len(),
        ensures
            final(self).inv(),
            final(self).cfg() == old(self).cfg(),
            add_token_post(old(self).cfg(), old(self).model(), final(self).model(), token@),
    {
        proof {
            lemma_score_bound(self.cfg(), self.model());
        }
        match &self.breakpoint {
            Some(_) => {
                self.validity = Validity::Invalid;
            },
            None => {
                self.score = self.score + BREAKPOINT_WEIGHT * (pos as u64);
                self.breakpoint = Some(token.to_owned());
            },
        }
    }

    /// The media-query branch of `add_token`.
    fn add_media_query_token(&mut self, token: &str, pos: usize)
        requires
            old(self).inv(),
            old(self).model().argument is None,
            !(old(self).model().validity is Invalid),
            !token_is_breakpoint(old(self).cfg(), token@),
            crate::ordered_map::find_key(old(self).cfg().user.media_queries@, token@) == Some(
                pos as int,
            ),
            pos < old(self).cfg().user.media_queries@.len(),
        ensures
            final(self).inv(),
            final(self).cfg() == old(self).cfg(),
            add_token_post(old(self).cfg(), old(self).model(), final(self).model(), token@),
    {
        proof {
            lemma_score_bound(self.cfg(), self.model());
        }
        match &self.media_query {
            Some(_) => {
                self.validity = Validity::Invalid;
            },
            None => {
                self.score = self.score + MEDIA_QUERY_WEIGHT * (pos as u64);
                self.media_query = Some(token.to_owned());
            },
        }
    }

    /// The parent-modifier branch of `add_token`.
    fn add_parent_modifier_token(&mut self, token: &str, pos: usize)
        requires
            old(self).inv(),
            old(self).model().argument is None,
            !(old(self).model().validity is Invalid),
            !token_is_breakpoint(old(self).cfg(), token@),
            !token_is_media_query(old(self).cfg(), token@),
            crate::ordered_map::find_key(old(self).cfg().user.parent_modifiers@, token@) == Some(
                pos as int,
            ),
            pos < old(self).cfg().user.parent_modifiers@.len(),
        ensures
            final(self).inv(),
            final(self).cfg() == old(self).cfg(),
            add_token_post(old(self).cfg(), old(self).model(), final(self).model(), token@),
    {
        proof {
            lemma_score_bound(self.cfg(), self.model());
        }
        match &self.parent_modifier {
            Some(_) => {
                self.validity = Validity::Invalid;
            },
            None => {
                self.score = self.score + PARENT_MODIFIER_WEIGHT * (pos as u64);
                self.parent_modifier = Some(token.to_owned());
            },
        }
    }

    /// The modifier branch of `add_token`: a fresh modifier is inserted at
    /// its canonical place; a repeated one invalidates the record.
    #[verifier::loop_isolation(false)]
    #[verifier::rlimit(60)]
    fn add_modifier_token(&mut self, token: &str, pos: usize)
        requires
            old(self).inv(),
            old(self).model().argument is None,
            !(old(self).model().validity is Invalid),
            !token_is_breakpoint(old(self).cfg(), token@),
            !token_is_media_query(old(self).cfg(), token@),
            !token_is_parent_modifier(old(self).cfg(), token@),
            crate::utils::find_view(cfg_modifier_views(old(self).cfg()), token@) == Some(
                pos as int,
            ),
            pos < old(self).cfg().modifiers@.len(),
        ensures
            final(self).inv(),
            final(self).cfg() == old(self).cfg(),
            add_token_post(old(self).cfg(), old(self).model(), final(self).model(), token@),
    {
        proof {
            lemma_score_bound(self.cfg(), self.model());
            crate::utils::lemma_find_view(cfg_modifier_views(*self.config), token@);
            assert(cfg_modifier_views(*self.config)[pos as int] == token@);
            assert(token_is_modifier(self.cfg(), token@));
        }
        let cfg = self.config;
        if crate::utils::contains_string(&self.modifiers, token) {
            self.validity = Validity::Invalid;
            return ;
        }
        let ghost old_mods = views_of_strings(self.modifiers@);
        let ghost old_vec = self.modifiers@;
        let mut idx: usize = 0;
        let mut stop = false;
        while idx < self.modifiers.len() && !stop
            invariant
                0 <= idx <= self.modifiers@.len(),
                self.modifiers@ == old_vec,
                forall|j: int|
                    0 <= j < idx ==> modifier_position(self.cfg(), #[trigger] old_mods[j]) < pos,
                stop ==> idx < old_mods.len() && modifier_position(
                    self.cfg(),
                    old_mods[idx as int],
                ) > pos,
            decreases self.modifiers@.len() - idx + (if stop {
                0int
            } else {
                1int
            }),
        {
            let elem_pos = crate::utils::position_of_string(
                &cfg.modifiers,
                self.modifiers[idx].as_str(),
            );
            match elem_pos {
                Some(p) => {
                    if p < pos {
                        idx = idx + 1;
                    } else {
                        proof {
                            if p == pos {
                                crate::utils::lemma_find_view(
                                    cfg_modifier_views(*cfg),
                                    old_mods[idx as int],
                                );
                                assert(cfg_modifier_views(*cfg)[p as int]
                                    == old_mods[idx as int]);
                                assert(old_mods.contains(token@)) by {
                                    assert(old_mods[idx as int] == token@);
                                }
                                assert(false);
                            }
                        }
                        stop = true;
                    }
                },
                None => {
                    proof {
                        assert(crate::utils::find_view(
                            cfg_modifier_views(*cfg),
                            old_mods[idx as int],
                        ) is Some);
                        assert(false);
                    }
                },
            }
        }
        proof {
            assert forall|j: int| idx <= j < old_mods.len() implies modifier_position(
                self.cfg(),
                #[trigger] old_mods[j],
            ) > pos by {
                if j > idx {
                    assert(modifier_position(self.cfg(), old_mods[idx as int])
                        < modifier_position(self.cfg(), old_mods[j]));
                }
            }
        }
        self.score = self.score + MODIFIER_WEIGHT * (pos as u64);
        self.modifiers.insert(idx, token.to_owned());
        proof {
            let inserted = self.modifiers@[idx as int];
            assert(self.modifiers@ == old_vec.insert(idx as int, inserted));
            lemma_views_insert(old_vec, idx as int, inserted);
            let new_mods = views_of_strings(self.modifiers@);
            assert(new_mods == old_mods.insert(idx as int, token@));
            lemma_insert_multiset(old_mods, idx as int, token@);
            lemma_mod_sum_insert(self.cfg(), old_mods, idx as int, token@);
            assert forall|a: int, b: int| 0 <= a < b < new_mods.len() implies modifier_position(
                self.cfg(),
                #[trigger] new_mods[a],
            ) < modifier_position(self.cfg(), #[trigger] new_mods[b]) by {
                if a < idx {
                    assert(new_mods[a] == old_mods[a]);
                } else if a == idx {
                    assert(new_mods[a] == token@);
                } else {
                    assert(new_mods[a] == old_mods[a - 1]);
                }
                if b < idx {
                    assert(new_mods[b] == old_mods[b]);
                } else if b == idx {
                    assert(new_mods[b] == token@);
                } else {
                    assert(new_mods[b] == old_mods[b - 1]);
                }
            }
            assert forall|a: int| 0 <= a < new_mods.len() implies crate::utils::find_view(
                cfg_modifier_views(self.cfg()),
                #[trigger] new_mods[a],
            ) is Some by {
                if a < idx {
                    assert(new_mods[a] == old_mods[a]);
                } else if a == idx {
                    assert(new_mods[a] == token@);
                } else {
                    assert(new_mods[a] == old_mods[a - 1]);
                }
            }
            assert(modifiers_canonical(self.cfg(), new_mods));
        }
    }

    /// The value-reference branch of `add_token`: a `$name` resolves a
    /// style name against the atom, or a shorthand when no atom is set.
    #[verifier::rlimit(60)]
    fn add_value_ref_token(&mut self, token: &str)
        requires
            old(self).inv(),
            old(self).model().argument is None,
            !(old(self).model().validity is Invalid),
            !token_is_breakpoint(old(self).cfg(), token@),
            !token_is_media_query(old(self).cfg(), token@),
            !token_is_parent_modifier(old(self).cfg(), token@),
            !token_is_modifier(old(self).cfg(), token@),
            token_is_value_ref(token@),
        ensures
            final(self).inv(),
            final(self).cfg() == old(self).cfg(),
            add_token_post(old(self).cfg(), old(self).model(), final(self).model(), token@),
    {
        proof {
            lemma_score_bound(self.cfg(), self.model());
        }
        let cfg = self.config;
        let n = token.unicode_len();
        let cleaned = token.substring_char(1, n);
        proof {
            assert(cleaned@ =~= token@.drop_first());
        }
        match &self.atom {
            Some(atom_name) => {
                match &self.style_name {
                    Some(_) => {
                        self.validity = Validity::Invalid;
                    },
                    None => {
                        let found = cfg.atoms.get_full(atom_name.as_str());
                        match found {
                            Some((_, meta)) => {
                                match meta.values.get_full(cleaned) {
                                    Some((vpos, val)) => {
                                        self.score = self.score + VALUE_WEIGHT * (vpos as u64);
                                        self.style_name = Some(cleaned.to_owned());
                                        self.value = match val {
                                            crate::config::user::AtomCssValue::Value(c) => Some(
                                                c.dup(),
                                            ),
                                            crate::config::user::AtomCssValue::Object(_) => None,
                                        };
                                        self.validity = Validity::Valid;
                                    },
                                    None => {
                                        self.validity = Validity::Invalid;
                                    },
                                }
                            },
                            None => {
                                proof {
                                    assert(false);
                                }
                            },
                        }
                    },
                }
            },
            None => {
                match &self.shorthand {
                    Some(_) => {
                        self.validity = Validity::Invalid;
                    },
                    None => {
                        self.shorthand = Some(cleaned.to_owned());
                        self.validity = Validity::Valid;
                    },
                }
            },
        }
    }

    /// The atom branch of `add_token`: a second atom invalidates the
    /// record; an unknown name does nothing.
    #[verifier::rlimit(60)]
    fn add_atom_token(&mut self, token: &str)
        requires
            old(self).inv(),
            old(self).model().argument is None,
            !(old(self).model().validity is Invalid),
            !token_is_breakpoint(old(self).cfg(), token@),
            !token_is_media_query(old(self).cfg(), token@),
            !token_is_parent_modifier(old(self).cfg(), token@),
            !token_is_modifier(old(self).cfg(), token@),
            !token_is_value_ref(token@),
        ensures
            final(self).inv(),
            final(self).cfg() == old(self).cfg(),
            add_token_post(old(self).cfg(), old(self).model(), final(self).model(), token@),
    {
        proof {
            lemma_score_bound(self.cfg(), self.model());
        }
        let cfg = self.config;
        match &self.atom {
            Some(_) => {
                self.validity = Validity::Invalid;
            },
            None => {
                match cfg.atoms.get_full(token) {
                    Some((pos, meta)) => {
                        self.score = self.score + ATOM_WEIGHT * (pos as u64);
                        self.keyframes = crate::config::user::dup_string_vec(&meta.keyframes);
                        self.groups = crate::config::user::dup_string_vec(&meta.groups);
                        self.atom = Some(token.to_owned());
                    },
                    None => {
                        self.validity = Validity::Invalid;
                    },
                }
            },
        }
    }
}

/// What `add_arguments` does: on a record that is not invalid and has no
/// style name or shorthand yet, the argument becomes the resolved value
/// and the record becomes valid; arbitrary values score one past the last
/// named value of the atom.
pub open spec fn add_arguments_post(
    cfg: Config,
    a: ClassModel,
    b: ClassModel,
    argm: (Option<Seq<char>>, Seq<char>),
) -> bool {
    if a.validity is Invalid {
        b == a
    } else if a.style_name is Some || a.shorthand is Some {
        b == a
    } else {
        b == ClassModel {
            value: Some(argm.1),
            argument: Some(argm),
            validity: Validity::Valid,
            score: a.score + match a.atom {
                Some(at) => match crate::ordered_map::find_key(cfg.atoms@, at) {
                    Some(i) => VALUE_WEIGHT * cfg.atoms@[i].1.values@.len(),
                    None => 0,
                },
                None => 0,
            },
            ..a
        }
    }
}

/// A sequence of `add_token` steps relates the models before and after.
pub open spec fn add_tokens_rel(
    cfg: Config,
    a: ClassModel,
    b: ClassModel,
    toks: Seq<Seq<char>>,
) -> bool
    decreases toks.len(),
{
    if toks.len() == 0 {
        b == a
    } else {
        exists|mid: ClassModel|
            #[trigger] add_token_post(cfg, a, mid, toks[0]) && add_tokens_rel(
                cfg,
                mid,
                b,
                toks.drop_first(),
            )
    }
}

/// Extending a token chain by one more step.
pub proof fn lemma_add_tokens_snoc(
    cfg: Config,
    a: ClassModel,
    mid: ClassModel,
    b: ClassModel,
    toks: Seq<Seq<char>>,
    t: Seq<char>,
)
    requires
        add_tokens_rel(cfg, a, mid, toks),
        add_token_post(cfg, mid, b, t),
    ensures
        add_tokens_rel(cfg, a, b, toks.push(t)),
    decreases toks.len(),
{
    if toks.len() == 0 {
        assert(toks.push(t)[0] == t);
        assert(toks.push(t).drop_first() =~= Seq::<Seq<char>>::empty());
        assert(add_tokens_rel(cfg, b, b, toks.push(t).drop_first()));
    } else {
        let m0 = choose|m0: ClassModel|
            #[trigger] add_token_post(cfg, a, m0, toks[0]) && add_tokens_rel(
                cfg,
                m0,
                mid,
                toks.drop_first(),
            );
        lemma_add_tokens_snoc(cfg, m0, mid, b, toks.drop_first(), t);
        assert(toks.push(t)[0] == toks[0]);
        assert(toks.push(t).drop_first() =~= toks.drop_first().push(t));
    }
}

/// Every `add_token` step leaves the argument slot alone.
pub proof fn lemma_add_token_keeps_argument(
    cfg: Config,
    a: ClassModel,
    b: ClassModel,
    t: Seq<char>,
)
    requires
        add_token_post(cfg, a, b, t),
    ensures
        b.argument == a.argument,
{
}

impl<'c> ClassName<'c> {
    /// Feed several tokens, in order.
    pub fn add_tokens(&mut self, slice: &Vec<&str>)
        requires
            old(self).inv(),
            old(self).model().argument is None,
        ensures
            final(self).inv(),
            final(self).cfg() == old(self).cfg(),
            final(self).model().argument is None,
            add_tokens_rel(
                old(self).cfg(),
                old(self).model(),
                final(self).model(),
                slice@.map_values(|t: &str| t@),
            ),
    {
        let ghost toks = slice@.map_values(|t: &str| t@);
        let mut i: usize = 0;
        proof {
            assert(toks.take(0int) =~= Seq::<Seq<char>>::empty());
        }
        while i < slice.len()
            invariant
                0 <= i <= slice@.len(),
                toks == slice@.map_values(|t: &str| t@),
                toks.len() == slice@.len(),
                self.inv(),
                self.cfg() == old(self).cfg(),
                self.model().argument is None,
                add_tokens_rel(
                    old(self).cfg(),
                    old(self).model(),
                    self.model(),
                    toks.take(i as int),
                ),
            decreases slice@.len() - i,
        {
            let ghost mid = self.model();
            self.add_token(slice[i]);
            proof {
                lemma_add_token_keeps_argument(
                    old(self).cfg(),
                    mid,
                    self.model(),
                    toks[i as int],
                );
                lemma_add_tokens_snoc(
                    old(self).cfg(),
                    old(self).model(),
                    mid,
                    self.model(),
                    toks.take(i as int),
                    toks[i as int],
                );
                assert(toks.take(i as int).push(toks[i as int]) =~= toks.take(i + 1 as int));
            }
            i = i + 1;
        }
        proof {
            assert(toks.take(toks.len() as int) =~= toks);
        }
    }

    /// Attach the terminal callable argument.
    pub fn add_arguments(&mut self, arguments: ClassArguments)
        requires
            old(self).inv(),
            old(self).model().argument is None,
        ensures
            final(self).inv(),
            final(self).cfg() == old(self).cfg(),
            add_arguments_post(
                old(self).cfg(),
                old(self).model(),
                final(self).model(),
                arg_model(arguments),
            ),
    {
        proof {
            lemma_score_bound(self.cfg(), self.model());
        }
        if matches!(&self.validity, Validity::Invalid) {
            return ;
        }
        if self.style_name.is_some() || self.shorthand.is_some() {
            return ;
        }
        let cfg = self.config;
        let mut increment: u64 = 0;
        match &self.atom {
            Some(atom_name) => {
                match cfg.atoms.get_full(atom_name.as_str()) {
                    Some((_, meta)) => {
                        increment = VALUE_WEIGHT * (meta.values.len() as u64);
                    },
                    None => {
                        proof {
                            assert(false);
                        }
                    },
                }
            },
            None => {},
        }
        self.score = self.score + increment;
        self.value = Some(CssValue::Str(arguments.get_value()));
        self.argument = Some(arguments);
        self.validity = Validity::Valid;
    }
}

/// An optional name as a sequence of zero or one tokens.
pub open spec fn opt_seq(o: Option<Seq<char>>) -> Seq<Seq<char>> {
    match o {
        Some(x) => seq![x],
        None => Seq::empty(),
    }
}

/// The tokens of the base selector, in fixed order: breakpoint, media
/// query, parent modifier, modifiers, atom.
pub open spec fn base_token_views(m: ClassModel) -> Seq<Seq<char>> {
    opt_seq(m.breakpoint) + opt_seq(m.media_query) + opt_seq(m.parent_modifier) + m.modifiers
        + opt_seq(m.atom)
}

/// The single selector before modifier expansion: the escaped tokens
/// joined by `\:`, then the shorthand, style name or bracketed argument.
pub open spec fn base_selector(m: ClassModel) -> Seq<char> {
    let tokens = base_token_views(m);
    let sel = "."@ + crate::utils::sep_join(tokens, "\\:"@);
    let prefix: Seq<char> = if tokens.len() == 0 {
        Seq::empty()
    } else {
        "\\:\\:"@
    };
    if m.shorthand is Some {
        sel + prefix + "\\$"@ + m.shorthand->Some_0
    } else if m.style_name is Some {
        sel + prefix + "\\$"@ + m.style_name->Some_0
    } else if m.argument is Some {
        sel + prefix + "\\["@ + spec_arg_string(m.argument->Some_0) + "\\]"@
    } else {
        sel
    }
}

/// Every selector with the template's placeholder substituted.
pub open spec fn replaced_views(t: Seq<char>, sels: Seq<Seq<char>>) -> Seq<Seq<char>> {
    sels.map_values(|s: Seq<char>| crate::utils::spec_replace_char(t, '&', s))
}

/// The cross product of templates and selectors, template-major.
pub open spec fn cross_expand(sels: Seq<Seq<char>>, templates: Seq<Seq<char>>) -> Seq<Seq<char>>
    decreases templates.len(),
{
    if templates.len() == 0 {
        Seq::empty()
    } else {
        cross_expand(sels, templates.drop_last()) + replaced_views(templates.last(), sels)
    }
}

/// One expansion step: each template yields one variant per current
/// selector; with no templates (or no selectors) nothing changes.
pub open spec fn expand_step(sels: Seq<Seq<char>>, templates: Seq<Seq<char>>) -> Seq<Seq<char>> {
    if templates.len() == 0 || sels.len() == 0 {
        sels
    } else {
        cross_expand(sels, templates)
    }
}

/// The modifiers applied in order, each fanning the selectors out through
/// its templates.
pub open spec fn apply_class_modifiers(
    cfg: Config,
    sels: Seq<Seq<char>>,
    mods: Seq<Seq<char>>,
) -> Seq<Seq<char>>
    decreases mods.len(),
{
    if mods.len() == 0 {
        sels
    } else {
        let prev = apply_class_modifiers(cfg, sels, mods.drop_last());
        match crate::ordered_map::find_key(cfg.modifiers_map@, mods.last()) {
            Some(i) => expand_step(prev, views_of_strings(cfg.modifiers_map@[i].1@)),
            None => prev,
        }
    }
}

/// The parent modifier's fan-out, applied after the regular modifiers.
pub open spec fn apply_parent_modifier(
    cfg: Config,
    sels: Seq<Seq<char>>,
    pm: Option<Seq<char>>,
) -> Seq<Seq<char>> {
    match pm {
        Some(p) => match crate::ordered_map::find_key(cfg.user.parent_modifiers@, p) {
            Some(i) => expand_step(sels, views_of_strings(cfg.user.parent_modifiers@[i].1@)),
            None => sels,
        },
        None => sels,
    }
}

/// The full selector of a class name: the base selector fanned out through
/// the active modifiers and parent modifier, comma-joined.
pub open spec fn spec_selector(cfg: Config, m: ClassModel) -> Seq<char> {
    crate::utils::sep_join(
        apply_parent_modifier(
            cfg,
            apply_class_modifiers(cfg, seq![base_selector(m)], m.modifiers),
            m.parent_modifier,
        ),
        ", "@,
    )
}

/// A cross product multiplies the counts.
pub proof fn lemma_cross_expand_len(sels: Seq<Seq<char>>, templates: Seq<Seq<char>>)
    ensures
        cross_expand(sels, templates).len() == templates.len() * sels.len(),
    decreases templates.len(),
{
    if templates.len() == 0 {
        assert(cross_expand(sels, templates).len() == 0);
    } else {
        lemma_cross_expand_len(sels, templates.drop_last());
        assert((templates.len() - 1) * sels.len() + sels.len() == templates.len() * sels.len())
            by (nonlinear_arith);
    }
}

/// Multiplicative modifier expansion: a modifier with `n` templates turns
/// each selector into `n`; applying two such modifiers in sequence yields
/// the product of their template counts.
pub proof fn multiplicative_modifier_expansion(
    sels: Seq<Seq<char>>,
    t1: Seq<Seq<char>>,
    t2: Seq<Seq<char>>,
)
    requires
        sels.len() > 0,
        t1.len() > 0,
        t2.len() > 0,
    ensures
        expand_step(sels, t1).len() == t1.len() * sels.len(),
        expand_step(expand_step(sels, t1), t2).len() == t2.len() * t1.len() * sels.len(),
{
    lemma_cross_expand_len(sels, t1);
    assert(t1.len() * sels.len() > 0) by (nonlinear_arith)
        requires
            t1.len() > 0 && sels.len() > 0,
    ;
    lemma_cross_expand_len(expand_step(sels, t1), t2);
    assert(t2.len() * (t1.len() * sels.len()) == t2.len() * t1.len() * sels.len())
        by (nonlinear_arith);
}

/// Fan the selectors out through one template list.
#[verifier::loop_isolation(false)]
fn expand_selectors(selectors: &Vec<String>, templates: &Vec<String>) -> (r: Vec<String>)
    ensures
        views_of_strings(r@) == expand_step(
            views_of_strings(selectors@),
            views_of_strings(templates@),
        ),
{
    if templates.len() == 0 || selectors.len() == 0 {
        let r = crate::config::user::dup_string_vec(selectors);
        proof {
            assert(views_of_strings(r@) =~= views_of_strings(selectors@));
        }
        return r;
    }
    let ghost sel_views = views_of_strings(selectors@);
    let ghost tpl_views = views_of_strings(templates@);
    let mut out: Vec<String> = Vec::new();
    let mut i: usize = 0;
    proof {
        assert(tpl_views.take(0int) =~= Seq::<Seq<char>>::empty());
        assert(views_of_strings(out@) =~= cross_expand(sel_views, tpl_views.take(0int)));
    }
    while i < templates.len()
        invariant
            0 <= i <= templates@.len(),
            views_of_strings(out@) == cross_expand(sel_views, tpl_views.take(i as int)),
        decreases templates@.len() - i,
    {
        let template = &templates[i];
        let mut j: usize = 0;
        while j < selectors.len()
            invariant
                0 <= j <= selectors@.len(),
                0 <= i < templates@.len(),
                template == templates@[i as int],
                views_of_strings(out@) == cross_expand(sel_views, tpl_views.take(i as int))
                    + replaced_views(tpl_views[i as int], sel_views).take(j as int),
            decreases selectors@.len() - j,
        {
            let ghost pre = out@;
            let expanded = crate::utils::replace_char(template.as_str(), '&', selectors[j].as_str());
            out.push(expanded);
            proof {
                crate::utils::lemma_views_push(pre, out@.last());
                assert(replaced_views(tpl_views[i as int], sel_views)[j as int]
                    == crate::utils::spec_replace_char(
                    tpl_views[i as int],
                    '&',
                    sel_views[j as int],
                ));
                assert(views_of_strings(out@) =~= cross_expand(
                    sel_views,
                    tpl_views.take(i as int),
                ) + replaced_views(tpl_views[i as int], sel_views).take(j + 1 as int));
            }
            j = j + 1;
        }
        proof {
            let t = tpl_views.take(i + 1 as int);
            assert(t.drop_last() =~= tpl_views.take(i as int));
            assert(t.last() == tpl_views[i as int]);
            assert(replaced_views(tpl_views[i as int], sel_views).take(sel_views.len() as int)
                =~= replaced_views(tpl_views[i as int], sel_views));
        }
        i = i + 1;
    }
    proof {
        assert(tpl_views.take(tpl_views.len() as int) =~= tpl_views);
    }
    out
}

/// The declaration of one style rule, over the resolved value's text.
pub open spec fn decl_with_text(rule: crate::config::user::StyleRule, vtext: Option<Seq<char>>) -> Seq<char> {
    match rule {
        crate::config::user::StyleRule::WithValue(name, v) => name@ + ": "@ + v.spec_get_string(),
        crate::config::user::StyleRule::Name(name) => match vtext {
            Some(t) => name@ + ": "@ + t,
            None => Seq::empty(),
        },
    }
}

/// The declaration lines a class name's atom contributes.
pub open spec fn atom_decl_views(
    rules: Seq<crate::config::user::StyleRule>,
    vtext: Option<Seq<char>>,
) -> Seq<Seq<char>> {
    rules.map_values(|r: crate::config::user::StyleRule| decl_with_text(r, vtext))
}

/// The declaration lines a shorthand contributes; shorthands carry fixed
/// declarations and take no value.
pub open spec fn shorthand_decl_views(rules: Seq<crate::config::user::StyleRule>) -> Seq<
    Seq<char>,
> {
    rules.map_values(|r: crate::config::user::StyleRule| r.spec_style_declaration(None))
}

/// All declaration lines of a class name, in configuration order.
pub open spec fn class_decl_views(cfg: Config, m: ClassModel) -> Seq<Seq<char>> {
    let atom_part: Seq<Seq<char>> = match m.atom {
        Some(a) => match crate::ordered_map::find_key(cfg.user.style_rules@, a) {
            Some(i) => atom_decl_views(cfg.user.style_rules@[i].1@, m.value),
            None => Seq::empty(),
        },
        None => Seq::empty(),
    };
    let shorthand_part: Seq<Seq<char>> = match m.shorthand {
        Some(sh) => match crate::ordered_map::find_key(cfg.user.shorthand@, sh) {
            Some(i) => shorthand_decl_views(cfg.user.shorthand@[i].1@),
            None => Seq::empty(),
        },
        None => Seq::empty(),
    };
    atom_part + shorthand_part
}

/// The declaration text of a class name.
pub open spec fn spec_style_declaration_text(cfg: Config, m: ClassModel) -> Seq<char> {
    crate::utils::sep_join(class_decl_views(cfg, m), ";\n"@)
}

/// The rendered CSS rule of a class name: its selector and its indented
/// declaration block.
pub open spec fn spec_class_css(cfg: Config, m: ClassModel) -> Seq<char> {
    let decl = spec_style_declaration_text(cfg, m);
    if decl.len() == 0 {
        spec_selector(cfg, m) + " {}"@
    } else {
        spec_selector(cfg, m) + " {\n"@ + crate::utils::spec_indent(
            decl,
            crate::INDENTATION as int,
        ) + ";\n}"@
    }
}

impl<'c> ClassName<'c> {
    /// Render the full selector: base tokens joined with escaped colons,
    /// then the modifier and parent-modifier fan-out, comma-joined.
    #[verifier::loop_isolation(false)]
    #[verifier::rlimit(80)]
    pub fn get_selector(&self) -> (r: String)
        ensures
            r@ == spec_selector(self.cfg(), self.model()),
    {
        let cfg = self.config;
        let ghost m = self.model();
        let mut tokens: Vec<String> = Vec::new();
        match &self.breakpoint {
            Some(b) => {
                let ghost pre = tokens@;
                tokens.push(b.clone());
                proof {
                    crate::utils::lemma_views_push(pre, tokens@.last());
                }
            },
            None => {},
        }
        match &self.media_query {
            Some(b) => {
                let ghost pre = tokens@;
                tokens.push(b.clone());
                proof {
                    crate::utils::lemma_views_push(pre, tokens@.last());
                }
            },
            None => {},
        }
        match &self.parent_modifier {
            Some(b) => {
                let ghost pre = tokens@;
                tokens.push(b.clone());
                proof {
                    crate::utils::lemma_views_push(pre, tokens@.last());
                }
            },
            None => {},
        }
        proof {
            assert(views_of_strings(tokens@) =~= opt_seq(m.breakpoint) + opt_seq(m.media_query)
                + opt_seq(m.parent_modifier));
        }
        let mut k: usize = 0;
        let ghost head = views_of_strings(tokens@);
        while k < self.modifiers.len()
            invariant
                0 <= k <= self.modifiers@.len(),
                views_of_strings(tokens@) == head + m.modifiers.take(k as int),
            decreases self.modifiers@.len() - k,
        {
            let ghost pre = tokens@;
            tokens.push(self.modifiers[k].clone());
            proof {
                crate::utils::lemma_views_push(pre, tokens@.last());
                assert(views_of_strings(tokens@) =~= head + m.modifiers.take(k + 1 as int));
            }
            k = k + 1;
        }
        proof {
            assert(m.modifiers.take(m.modifiers.len() as int) =~= m.modifiers);
        }
        match &self.atom {
            Some(a) => {
                let ghost pre = tokens@;
                tokens.push(a.clone());
                proof {
                    crate::utils::lemma_views_push(pre, tokens@.last());
                }
            },
            None => {},
        }
        proof {
            assert(views_of_strings(tokens@) =~= base_token_views(m));
        }
        let empty_tokens = tokens.len() == 0;
        let joined = crate::utils::join_strings(&tokens, "\\:");
        let mut selector = String::from_str(".");
        selector.append(joined.as_str());
        match &self.shorthand {
            Some(sh) => {
                if !empty_tokens {
                    selector.append("\\:\\:");
                }
                selector.append("\\$");
                selector.append(sh.as_str());
            },
            None => {
                match &self.style_name {
                    Some(sn) => {
                        if !empty_tokens {
                            selector.append("\\:\\:");
                        }
                        selector.append("\\$");
                        selector.append(sn.as_str());
                    },
                    None => {
                        match &self.argument {
                            Some(arg) => {
                                if !empty_tokens {
                                    selector.append("\\:\\:");
                                }
                                selector.append("\\[");
                                let a = arg.get_string();
                                selector.append(a.as_str());
                                selector.append("\\]");
                            },
                            None => {},
                        }
                    },
                }
            },
        }
        proof {
            assert(selector@ =~= base_selector(m));
        }
        let mut selectors: Vec<String> = Vec::new();
        selectors.push(selector);
        proof {
            assert(views_of_strings(selectors@) =~= seq![base_selector(m)]);
        }
        let mut i: usize = 0;
        proof {
            assert(m.modifiers.take(0int) =~= Seq::<Seq<char>>::empty());
        }
        while i < self.modifiers.len()
            invariant
                0 <= i <= self.modifiers@.len(),
                views_of_strings(selectors@) == apply_class_modifiers(
                    self.cfg(),
                    seq![base_selector(m)],
                    m.modifiers.take(i as int),
                ),
            decreases self.modifiers@.len() - i,
        {
            match cfg.modifiers_map.get_full(self.modifiers[i].as_str()) {
                Some((_, templates)) => {
                    selectors = expand_selectors(&selectors, templates);
                },
                None => {},
            }
            proof {
                let t = m.modifiers.take(i + 1 as int);
                assert(t.drop_last() =~= m.modifiers.take(i as int));
                assert(t.last() == m.modifiers[i as int]);
            }
            i = i + 1;
        }
        proof {
            assert(m.modifiers.take(m.modifiers.len() as int) =~= m.modifiers);
        }
        match &self.parent_modifier {
            Some(pm) => {
                match cfg.user.parent_modifiers.get_full(pm.as_str()) {
                    Some((_, templates)) => {
                        selectors = expand_selectors(&selectors, templates);
                    },
                    None => {},
                }
            },
            None => {},
        }
        crate::utils::join_strings(&selectors, ", ")
    }

    /// The declaration block: the atom's style rules rendered with the
    /// resolved value, then the shorthand's fixed declarations.
    #[verifier::loop_isolation(false)]
    pub fn get_style_declaration(&self) -> (r: String)
        ensures
            r@ == spec_style_declaration_text(self.cfg(), self.model()),
    {
        let cfg = self.config;
        let ghost m = self.model();
        let mut declarations: Vec<String> = Vec::new();
        match &self.atom {
            Some(a) => {
                match cfg.user.style_rules.get_full(a.as_str()) {
                    Some((_, rules)) => {
                        let ghost decls = atom_decl_views(rules@, m.value);
                        let mut i: usize = 0;
                        while i < rules.len()
                            invariant
                                0 <= i <= rules@.len(),
                                decls == atom_decl_views(rules@, m.value),
                                views_of_strings(declarations@) == decls.take(i as int),
                            decreases rules@.len() - i,
                        {
                            let ghost pre = declarations@;
                            let d = rules[i].get_style_declaration_as_ref(self.value.as_ref());
                            declarations.push(d);
                            proof {
                                crate::utils::lemma_views_push(pre, declarations@.last());
                                assert(decls[i as int] == decl_with_text(
                                    rules@[i as int],
                                    m.value,
                                ));
                                assert(views_of_strings(declarations@) =~= decls.take(
                                    i + 1 as int,
                                ));
                            }
                            i = i + 1;
                        }
                        proof {
                            assert(decls.take(rules@.len() as int) =~= decls);
                        }
                    },
                    None => {},
                }
            },
            None => {},
        }
        let ghost after_atom = views_of_strings(declarations@);
        match &self.shorthand {
            Some(sh) => {
                match cfg.user.shorthand.get_full(sh.as_str()) {
                    Some((_, rules)) => {
                        let ghost decls = shorthand_decl_views(rules@);
                        let mut i: usize = 0;
                        proof {
                            assert(after_atom + decls.take(0int) =~= after_atom);
                        }
                        while i < rules.len()
                            invariant
                                0 <= i <= rules@.len(),
                                decls == shorthand_decl_views(rules@),
                                views_of_strings(declarations@) == after_atom + decls.take(
                                    i as int,
                                ),
                            decreases rules@.len() - i,
                        {
                            let ghost pre = declarations@;
                            let d = rules[i].get_style_declaration(None);
                            declarations.push(d);
                            proof {
                                crate::utils::lemma_views_push(pre, declarations@.last());
                                assert(views_of_strings(declarations@) =~= after_atom
                                    + decls.take(i + 1 as int));
                            }
                            i = i + 1;
                        }
                        proof {
                            assert(decls.take(rules@.len() as int) =~= decls);
                        }
                    },
                    None => {},
                }
            },
            None => {},
        }
        proof {
            assert(views_of_strings(declarations@) =~= class_decl_views(self.cfg(), m));
        }
        crate::utils::join_strings(&declarations, ";\n")
    }

    /// Render the whole CSS rule of this class name.
    pub fn get_css(&self) -> (r: String)
        ensures
            r@ == spec_class_css(self.cfg(), self.model()),
    {
        let selector = self.get_selector();
        let style_declaration = self.get_style_declaration();
        let mut out = selector;
        if style_declaration.as_str().unicode_len() == 0 {
            out.append(" {}");
            proof {
                assert(out@ =~= spec_class_css(self.cfg(), self.model()));
            }
            out
        } else {
            out.append(" {\n");
            let indented = crate::utils::indent(style_declaration.as_str(), crate::INDENTATION);
            out.append(indented.as_str());
            out.append(";\n}");
            proof {
                assert(out@ =~= spec_class_css(self.cfg(), self.model()));
            }
            out
        }
    }
}

/// Two canonical modifier lists with the same members are identical.
pub proof fn lemma_canonical_unique(cfg: Config, x: Seq<Seq<char>>, y: Seq<Seq<char>>)
    requires
        modifiers_canonical(cfg, x),
        modifiers_canonical(cfg, y),
        x.to_multiset() == y.to_multiset(),
    ensures
        x == y,
    decreases x.len(),
{
    broadcast use vstd::seq_lib::group_to_multiset_ensures;

    assert(x.to_multiset().len() == x.len());
    assert(y.to_multiset().len() == y.len());
    if x.len() == 0 {
        assert(y.len() == 0);
        assert(x =~= y);
    } else {
        assert(y.len() == x.len());
        assert(x.contains(x.last())) by {
            assert(x[x.len() - 1] == x.last());
        }
        assert(y.to_multiset().count(x.last()) > 0);
        assert(y.contains(x.last()));
        let j = choose|j: int| 0 <= j < y.len() && y[j] == x.last();
        assert(y.contains(y.last())) by {
            assert(y[y.len() - 1] == y.last());
        }
        assert(x.to_multiset().count(y.last()) > 0);
        assert(x.contains(y.last()));
        let k = choose|k: int| 0 <= k < x.len() && x[k] == y.last();
        // positions: pos(x.last) >= pos(x[k]) == pos(y.last) >= pos(y[j]) == pos(x.last)
        if k < x.len() - 1 {
            assert(modifier_position(cfg, x[k]) < modifier_position(cfg, x[x.len() - 1]));
        }
        if j < y.len() - 1 {
            assert(modifier_position(cfg, y[j]) < modifier_position(cfg, y[y.len() - 1]));
        }
        assert(modifier_position(cfg, x.last()) == modifier_position(cfg, y.last()));
        // equal positions of found names force equal names
        crate::utils::lemma_find_view(cfg_modifier_views(cfg), x.last());
        crate::utils::lemma_find_view(cfg_modifier_views(cfg), y.last());
        assert(x.last() == y.last()) by {
            assert(x.contains(x.last()) && y.contains(y.last()));
            assert(crate::utils::find_view(cfg_modifier_views(cfg), x.last()) is Some);
            assert(crate::utils::find_view(cfg_modifier_views(cfg), y.last()) is Some);
            assert(cfg_modifier_views(cfg)[modifier_position(cfg, x.last())] == x.last());
            assert(cfg_modifier_views(cfg)[modifier_position(cfg, y.last())] == y.last());
        }
        assert(x.drop_last() =~= x.remove(x.len() - 1));
        assert(y.drop_last() =~= y.remove(y.len() - 1));
        assert(x.drop_last().to_multiset() == x.to_multiset().remove(x.last()));
        assert(y.drop_last().to_multiset() == y.to_multiset().remove(y.last()));
        lemma_canonical_unique(cfg, x.drop_last(), y.drop_last());
        assert forall|i: int| 0 <= i < x.len() implies x[i] == y[i] by {
            if i < x.len() - 1 {
                assert(x.drop_last()[i] == x[i]);
                assert(y.drop_last()[i] == y[i]);
                assert(x.drop_last() == y.drop_last());
            }
        }
        assert(x =~= y);
    }
}

/// Removing one element takes its term out of the modifier sum.
proof fn lemma_mod_sum_remove(cfg: Config, s: Seq<Seq<char>>, j: int)
    requires
        0 <= j < s.len(),
    ensures
        mod_sum(cfg, s) == mod_sum(cfg, s.remove(j)) + match crate::utils::find_view(
            cfg_modifier_views(cfg),
            s[j],
        ) {
            Some(p) => MODIFIER_WEIGHT * p,
            None => 0,
        },
{
    lemma_mod_sum_insert(cfg, s.remove(j), j, s[j]);
    assert(s.remove(j).insert(j, s[j]) =~= s);
}

/// The modifier sum depends only on the members, not their order.
pub proof fn lemma_mod_sum_permutation(cfg: Config, x: Seq<Seq<char>>, y: Seq<Seq<char>>)
    requires
        x.to_multiset() == y.to_multiset(),
    ensures
        mod_sum(cfg, x) == mod_sum(cfg, y),
    decreases x.len(),
{
    broadcast use vstd::seq_lib::group_to_multiset_ensures;

    assert(x.to_multiset().len() == x.len());
    assert(y.to_multiset().len() == y.len());
    if x.len() == 0 {
        assert(y.len() == 0);
    } else {
        assert(y.len() == x.len());
        assert(x.contains(x.last())) by {
            assert(x[x.len() - 1] == x.last());
        }
        assert(y.to_multiset().count(x.last()) > 0);
        assert(y.contains(x.last()));
        let j = choose|j: int| 0 <= j < y.len() && y[j] == x.last();
        lemma_mod_sum_remove(cfg, y, j);
        assert(x.drop_last() =~= x.remove(x.len() - 1));
        assert(x.drop_last().to_multiset() == x.to_multiset().remove(x.last()));
        assert(y.remove(j).to_multiset() == y.to_multiset().remove(x.last()));
        lemma_mod_sum_permutation(cfg, x.drop_last(), y.remove(j));
    }
}

/// The hypotheses of the order-invariance law: every token is a fresh,
/// distinct modifier name that no earlier category claims.
pub open spec fn all_fresh_modifier_tokens(
    cfg: Config,
    base: ClassModel,
    toks: Seq<Seq<char>>,
) -> bool {
    &&& toks.no_duplicates()
    &&& forall|i: int|
        0 <= i < toks.len() ==> {
            &&& !token_is_breakpoint(cfg, #[trigger] toks[i])
            &&& !token_is_media_query(cfg, toks[i])
            &&& !token_is_parent_modifier(cfg, toks[i])
            &&& token_is_modifier(cfg, toks[i])
            &&& !base.modifiers.contains(toks[i])
        }
}

/// The chained effect of feeding fresh modifier tokens: only the modifier
/// list and the score move, the list stays canonical with the expected
/// members, and the score tracks the modifier sum.
proof fn lemma_modifier_chain(
    cfg: Config,
    base: ClassModel,
    toks: Seq<Seq<char>>,
    r: ClassModel,
)
    requires
        !(base.validity is Invalid),
        modifiers_canonical(cfg, base.modifiers),
        all_fresh_modifier_tokens(cfg, base, toks),
        add_tokens_rel(cfg, base, r, toks),
    ensures
        modifiers_canonical(cfg, r.modifiers),
        r.modifiers.to_multiset() == base.modifiers.to_multiset().add(toks.to_multiset()),
        r == (ClassModel {
            modifiers: r.modifiers,
            score: base.score + mod_sum(cfg, r.modifiers) - mod_sum(cfg, base.modifiers),
            ..base
        }),
    decreases toks.len(),
{
    broadcast use vstd::seq_lib::group_to_multiset_ensures;

    if toks.len() == 0 {
        assert(r == base);
        assert(base.modifiers.to_multiset().add(toks.to_multiset())
            =~= base.modifiers.to_multiset()) by {
            assert(toks.to_multiset() =~= Multiset::<Seq<char>>::empty());
        }
    } else {
        let t = toks[0];
        let mid = choose|mid: ClassModel|
            #[trigger] add_token_post(cfg, base, mid, t) && add_tokens_rel(
                cfg,
                mid,
                r,
                toks.drop_first(),
            );
        assert(token_is_modifier(cfg, t));
        assert(!base.modifiers.contains(t));
        assert(mid.modifiers.to_multiset() == base.modifiers.push(t).to_multiset());
        assert(base.modifiers.push(t).to_multiset() == base.modifiers.to_multiset().insert(t));
        lemma_mod_sum_permutation(cfg, mid.modifiers, base.modifiers.push(t));
        assert(base.modifiers.push(t).drop_last() =~= base.modifiers);
        assert(mod_sum(cfg, base.modifiers.push(t)) == mod_sum(cfg, base.modifiers)
            + MODIFIER_WEIGHT * modifier_position(cfg, t)) by {
            crate::utils::lemma_find_view(cfg_modifier_views(cfg), t);
            assert(base.modifiers.push(t).last() == t);
        }
        // the remaining tokens are still fresh for `mid`
        assert(all_fresh_modifier_tokens(cfg, mid, toks.drop_first())) by {
            assert forall|i: int| 0 <= i < toks.drop_first().len() implies {
                &&& !token_is_breakpoint(cfg, #[trigger] toks.drop_first()[i])
                &&& !token_is_media_query(cfg, toks.drop_first()[i])
                &&& !token_is_parent_modifier(cfg, toks.drop_first()[i])
                &&& token_is_modifier(cfg, toks.drop_first()[i])
                &&& !mid.modifiers.contains(toks.drop_first()[i])
            } by {
                assert(toks.drop_first()[i] == toks[i + 1]);
                if mid.modifiers.contains(toks[i + 1]) {
                    assert(mid.modifiers.to_multiset().count(toks[i + 1]) > 0);
                    assert(base.modifiers.to_multiset().insert(t).count(toks[i + 1]) > 0);
                    if toks[i + 1] == t {
                        assert(false);
                    } else {
                        assert(base.modifiers.to_multiset().count(toks[i + 1]) > 0);
                        assert(base.modifiers.contains(toks[i + 1]));
                        assert(false);
                    }
                }
            }
        }
        lemma_modifier_chain(cfg, mid, toks.drop_first(), r);
        assert(r.modifiers.to_multiset() =~= base.modifiers.to_multiset().add(
            toks.to_multiset(),
        )) by {
            assert(toks.to_multiset() =~= toks.drop_first().to_multiset().insert(t)) by {
                assert(toks.drop_first().push(t).to_multiset() == toks.drop_first().to_multiset().insert(t));
                assert(toks.drop_first().push(t).to_multiset() =~= toks.to_multiset()) by {
                    assert(toks =~= seq![t] + toks.drop_first());
                    lemma_insert_multiset(toks.drop_first(), 0int, t);
                    assert(toks.drop_first().insert(0int, t) =~= toks);
                }
            }
        }
    }
}

/// Modifier order invariance: feeding the same set of modifier tokens in
/// any two orders onto the same record yields identical records, and with
/// them identical selectors and scores.
pub proof fn modifier_order_invariance(
    cfg: Config,
    base: ClassModel,
    ta: Seq<Seq<char>>,
    tb: Seq<Seq<char>>,
    a: ClassModel,
    b: ClassModel,
)
    requires
        !(base.validity is Invalid),
        modifiers_canonical(cfg, base.modifiers),
        ta.to_multiset() == tb.to_multiset(),
        all_fresh_modifier_tokens(cfg, base, ta),
        all_fresh_modifier_tokens(cfg, base, tb),
        add_tokens_rel(cfg, base, a, ta),
        add_tokens_rel(cfg, base, b, tb),
    ensures
        a == b,
        spec_selector(cfg, a) == spec_selector(cfg, b),
{
    lemma_modifier_chain(cfg, base, ta, a);
    lemma_modifier_chain(cfg, base, tb, b);
    lemma_canonical_unique(cfg, a.modifiers, b.modifiers);
}

/// Invalidity is sticky: once a record is invalid, no sequence of further
/// tokens changes it at all.
pub proof fn invalidity_is_sticky(
    cfg: Config,
    a: ClassModel,
    b: ClassModel,
    toks: Seq<Seq<char>>,
)
    requires
        a.validity is Invalid,
        add_tokens_rel(cfg, a, b, toks),
    ensures
        b == a,
    decreases toks.len(),
{
    if toks.len() > 0 {
        let mid = choose|mid: ClassModel|
            #[trigger] add_token_post(cfg, a, mid, toks[0]) && add_tokens_rel(
                cfg,
                mid,
                b,
                toks.drop_first(),
            );
        assert(mid == a);
        invalidity_is_sticky(cfg, mid, b, toks.drop_first());
    }
}

/// The most the sub-breakpoint categories can ever contribute to a score.
pub open spec fn sub_breakpoint_cap(cfg: Config) -> int {
    MEDIA_QUERY_WEIGHT * cfg.user.media_queries@.len() + PARENT_MODIFIER_WEIGHT
        * cfg.user.parent_modifiers@.len() + MODIFIER_WEIGHT * cfg.modifiers@.len()
        * cfg.modifiers@.len() + ATOM_WEIGHT * cfg.atoms@.len() + 2 * VALUE_WEIGHT
        * COLLECTION_LIMIT
}

/// Everything below the breakpoint stays under the cap.
proof fn lemma_sub_breakpoint_parts(cfg: Config, m: ClassModel)
    requires
        cfg.bounded(),
        modifiers_canonical(cfg, m.modifiers),
    ensures
        0 <= mq_part(cfg, m) + pm_part(cfg, m) + mod_sum(cfg, m.modifiers) + atom_part(cfg, m)
            + value_part(cfg, m) + arg_part(cfg, m) <= sub_breakpoint_cap(cfg),
        bp_part(cfg, m) >= 0,
{
    lemma_canonical_len(cfg, m.modifiers);
    lemma_mod_sum_linear(cfg, m.modifiers);
    assert(mod_sum(cfg, m.modifiers) <= MODIFIER_WEIGHT * cfg.modifiers@.len()
        * cfg.modifiers@.len()) by (nonlinear_arith)
        requires
            mod_sum(cfg, m.modifiers) <= MODIFIER_WEIGHT * cfg_modifier_views(cfg).len()
                * m.modifiers.len(),
            cfg_modifier_views(cfg).len() == cfg.modifiers@.len(),
            0 <= m.modifiers.len() <= cfg.modifiers@.len(),
    ;
    match m.media_query {
        Some(b) => {
            crate::ordered_map::lemma_find_key(cfg.user.media_queries@, b);
        },
        None => {},
    }
    match m.parent_modifier {
        Some(b) => {
            crate::ordered_map::lemma_find_key(cfg.user.parent_modifiers@, b);
        },
        None => {},
    }
    match m.breakpoint {
        Some(b) => {
            crate::ordered_map::lemma_find_key(cfg.user.breakpoints@, b);
        },
        None => {},
    }
    match m.atom {
        Some(a) => {
            crate::ordered_map::lemma_find_key(cfg.atoms@, a);
            match crate::ordered_map::find_key(cfg.atoms@, a) {
                Some(i) => {
                    match m.style_name {
                        Some(sn) => {
                            crate::ordered_map::lemma_find_key(cfg.atoms@[i].1.values@, sn);
                        },
                        None => {},
                    }
                },
                None => {},
            }
        },
        None => {},
    }
}

/// Score monotonicity: a class name with a higher breakpoint position
/// always outscores one with a lower breakpoint position, whatever their
/// other parts, for any configuration whose sub-breakpoint collections
/// are small enough that their whole weight stays below one breakpoint
/// step.
pub proof fn score_monotonicity(cfg: Config, x: ClassModel, y: ClassModel)
    requires
        cfg.bounded(),
        modifiers_canonical(cfg, x.modifiers),
        modifiers_canonical(cfg, y.modifiers),
        sub_breakpoint_cap(cfg) < BREAKPOINT_WEIGHT,
        x.breakpoint is Some,
        y.breakpoint is Some,
        crate::ordered_map::find_key(cfg.user.breakpoints@, x.breakpoint->Some_0) is Some,
        crate::ordered_map::find_key(cfg.user.breakpoints@, y.breakpoint->Some_0) is Some,
        crate::ordered_map::find_key(cfg.user.breakpoints@, x.breakpoint->Some_0)->Some_0
            > crate::ordered_map::find_key(cfg.user.breakpoints@, y.breakpoint->Some_0)->Some_0,
    ensures
        spec_score(cfg, x) > spec_score(cfg, y),
{
    lemma_sub_breakpoint_parts(cfg, x);
    lemma_sub_breakpoint_parts(cfg, y);
    let px = crate::ordered_map::find_key(cfg.user.breakpoints@, x.breakpoint->Some_0)->Some_0;
    let py = crate::ordered_map::find_key(cfg.user.breakpoints@, y.breakpoint->Some_0)->Some_0;
    assert(bp_part(cfg, x) == BREAKPOINT_WEIGHT * px);
    assert(bp_part(cfg, y) == BREAKPOINT_WEIGHT * py);
    assert(BREAKPOINT_WEIGHT * px >= BREAKPOINT_WEIGHT * py + BREAKPOINT_WEIGHT)
        by (nonlinear_arith)
        requires
            px >= py + 1,
    ;
}

/// Whether the named keyframe's block mentions the custom property `x`.
pub open spec fn keyframe_mention(cfg: Config, name: Seq<char>, x: Seq<char>) -> bool {
    match crate::ordered_map::find_key(cfg.user.keyframes@, name) {
        Some(w) => crate::utils::css_variables_of(
            crate::config::user::spec_keyframes_css(
                name,
                cfg.user.keyframes@[w].1.spec_frames(),
            ),
        ).contains(x),
        None => false,
    }
}

/// Whether the named group's block (over no selectors) mentions `x`.
pub open spec fn group_mention(cfg: Config, name: Seq<char>, x: Seq<char>) -> bool {
    match crate::ordered_map::find_key(cfg.user.groups@, name) {
        Some(w) => crate::utils::css_variables_of(
            crate::config::user::spec_group_css(
                cfg.user.groups@[w].1.spec_props(),
                Seq::empty(),
            ),
        ).contains(x),
        None => false,
    }
}

/// Whether the class name's rendered output mentions the custom property
/// `x`: through its own declarations, or through a referenced keyframe or
/// group.
pub open spec fn class_mentions(cfg: Config, m: ClassModel, x: Seq<char>) -> bool {
    ||| crate::utils::css_variables_of(spec_style_declaration_text(cfg, m)).contains(x)
    ||| exists|i: int|
        0 <= i < m.keyframes.len() && keyframe_mention(cfg, #[trigger] m.keyframes[i], x)
    ||| exists|i: int| 0 <= i < m.groups.len() && group_mention(cfg, #[trigger] m.groups[i], x)
}

impl<'c> ClassName<'c> {
    /// The distinct CSS custom properties the class name's output
    /// references: those of its declarations plus those of every keyframe
    /// and group it inherits.
    #[verifier::loop_isolation(false)]
    #[verifier::rlimit(60)]
    pub fn variables(&self) -> (r: Vec<String>)
        ensures
            crate::utils::no_dup_views(r@),
            forall|x: Seq<char>|
                #[trigger] views_of_strings(r@).contains(x) <==> class_mentions(
                    self.cfg(),
                    self.model(),
                    x,
                ),
    {
        let cfg = self.config;
        let ghost m = self.model();
        let decl = self.get_style_declaration();
        let mut out = crate::utils::get_css_variables_from_string(decl.as_str());
        proof {
            crate::utils::lemma_dedup_seqs_props(crate::utils::scan_css_vars(decl@, 0));
            assert forall|a: int, b: int| 0 <= a < b < out@.len() implies (#[trigger] out@[a])@
                != (#[trigger] out@[b])@ by {
                assert(views_of_strings(out@)[a] == out@[a]@);
                assert(views_of_strings(out@)[b] == out@[b]@);
            }
        }
        let mut i: usize = 0;
        while i < self.keyframes.len()
            invariant
                0 <= i <= self.keyframes@.len(),
                crate::utils::no_dup_views(out@),
                forall|x: Seq<char>|
                    #[trigger] views_of_strings(out@).contains(x) <==> (
                    crate::utils::css_variables_of(
                        spec_style_declaration_text(self.cfg(), m),
                    ).contains(x) || exists|k: int|
                        0 <= k < i && keyframe_mention(self.cfg(), #[trigger] m.keyframes[k], x)),
            decreases self.keyframes@.len() - i,
        {
            let ghost pre = views_of_strings(out@);
            let name = &self.keyframes[i];
            match cfg.user.keyframes.get_full(name.as_str()) {
                Some((_, keyframe)) => {
                    let vars = keyframe.get_css_variables_names(name.as_str());
                    proof {
                        crate::utils::lemma_dedup_seqs_props(
                            crate::utils::scan_css_vars(
                                crate::config::user::spec_keyframes_css(
                                    name@,
                                    keyframe.spec_frames(),
                                ),
                                0,
                            ),
                        );
                    }
                    crate::utils::extend_unique(&mut out, &vars);
                    proof {
                        assert forall|x: Seq<char>| views_of_strings(vars@).contains(
                            x,
                        ) implies keyframe_mention(self.cfg(), m.keyframes[i as int], x) by {}
                    }
                },
                None => {},
            }
            proof {
                assert forall|x: Seq<char>| #[trigger] views_of_strings(out@).contains(
                    x,
                ) implies (crate::utils::css_variables_of(
                    spec_style_declaration_text(self.cfg(), m),
                ).contains(x) || exists|k: int|
                    0 <= k < i + 1 && keyframe_mention(
                        self.cfg(),
                        #[trigger] m.keyframes[k],
                        x,
                    )) by {
                    if !crate::utils::css_variables_of(
                        spec_style_declaration_text(self.cfg(), m),
                    ).contains(x) {
                        if pre.contains(x) {
                            let k = choose|k: int|
                                0 <= k < i && keyframe_mention(
                                    self.cfg(),
                                    #[trigger] m.keyframes[k],
                                    x,
                                );
                            assert(keyframe_mention(self.cfg(), m.keyframes[k], x));
                        } else {
                            assert(keyframe_mention(self.cfg(), m.keyframes[i as int], x));
                        }
                    }
                }
                assert forall|x: Seq<char>|
                    (crate::utils::css_variables_of(
                        spec_style_declaration_text(self.cfg(), m),
                    ).contains(x) || exists|k: int|
                        0 <= k < i + 1 && keyframe_mention(
                            self.cfg(),
                            #[trigger] m.keyframes[k],
                            x,
                        )) implies #[trigger] views_of_strings(out@).contains(x) by {
                    if crate::utils::css_variables_of(
                        spec_style_declaration_text(self.cfg(), m),
                    ).contains(x) {
                    } else {
                        let k = choose|k: int|
                            0 <= k < i + 1 && keyframe_mention(
                                self.cfg(),
                                #[trigger] m.keyframes[k],
                                x,
                            );
                        if k < i {
                            assert(pre.contains(x));
                        }
                    }
                }
            }
            i = i + 1;
        }
        let ghost after_kf = views_of_strings(out@);
        let empty_selectors: Vec<String> = Vec::new();
        proof {
            assert(views_of_strings(empty_selectors@) =~= Seq::<Seq<char>>::empty());
        }
        let mut j: usize = 0;
        while j < self.groups.len()
            invariant
                0 <= j <= self.groups@.len(),
                views_of_strings(empty_selectors@) == Seq::<Seq<char>>::empty(),
                crate::utils::no_dup_views(out@),
                forall|x: Seq<char>|
                    #[trigger] views_of_strings(out@).contains(x) <==> (after_kf.contains(x)
                        || exists|k: int|
                        0 <= k < j && group_mention(self.cfg(), #[trigger] m.groups[k], x)),
            decreases self.groups@.len() - j,
        {
            let ghost pre = views_of_strings(out@);
            let name = &self.groups[j];
            match cfg.user.groups.get_full(name.as_str()) {
                Some((_, group)) => {
                    let vars = group.get_css_variables_names(&empty_selectors);
                    proof {
                        crate::utils::lemma_dedup_seqs_props(
                            crate::utils::scan_css_vars(
                                crate::config::user::spec_group_css(
                                    group.spec_props(),
                                    Seq::empty(),
                                ),
                                0,
                            ),
                        );
                    }
                    crate::utils::extend_unique(&mut out, &vars);
                    proof {
                        assert forall|x: Seq<char>| views_of_strings(vars@).contains(
                            x,
                        ) implies group_mention(self.cfg(), m.groups[j as int], x) by {}
                    }
                },
                None => {},
            }
            proof {
                assert forall|x: Seq<char>| #[trigger] views_of_strings(out@).contains(
                    x,
                ) implies (after_kf.contains(x) || exists|k: int|
                    0 <= k < j + 1 && group_mention(self.cfg(), #[trigger] m.groups[k], x)) by {
                    if !after_kf.contains(x) {
                        if pre.contains(x) {
                            let k = choose|k: int|
                                0 <= k < j && group_mention(
                                    self.cfg(),
                                    #[trigger] m.groups[k],
                                    x,
                                );
                            assert(group_mention(self.cfg(), m.groups[k], x));
                        } else {
                            assert(group_mention(self.cfg(), m.groups[j as int], x));
                        }
                    }
                }
                assert forall|x: Seq<char>|
                    (after_kf.contains(x) || exists|k: int|
                        0 <= k < j + 1 && group_mention(
                            self.cfg(),
                            #[trigger] m.groups[k],
                            x,
                        )) implies #[trigger] views_of_strings(out@).contains(x) by {
                    if !after_kf.contains(x) {
                        let k = choose|k: int|
                            0 <= k < j + 1 && group_mention(
                                self.cfg(),
                                #[trigger] m.groups[k],
                                x,
                            );
                        if k < j {
                            assert(pre.contains(x));
                        }
                    }
                }
            }
            j = j + 1;
        }
        out
    }
}

/// Feed the final segment of a rendered class string: a `$name` becomes a
/// token, anything else is tried as an argument, and a string that parses
/// as neither invalidates the record.
fn add_value_or_argument_segment(segment: &str, class_name: &mut ClassName)
    requires
        old(class_name).inv(),
        old(class_name).model().argument is None,
    ensures
        final(class_name).inv(),
        final(class_name).cfg() == old(class_name).cfg(),
{
    let n = segment.unicode_len();
    if n > 0 && segment.get_char(0) == '$' {
        class_name.add_token(segment);
    } else {
        match ClassArguments::from_string(segment) {
            Some(args) => {
                class_name.add_arguments(args);
            },
            None => {
                class_name.validity = Validity::Invalid;
            },
        }
    }
}

impl<'c> ClassName<'c> {
    /// Rebuild a class name from a string as it appears in the document,
    /// without its escape characters: the part before `::` holds the
    /// colon-separated tokens, the part after it the value or argument.
    pub fn from_dom_string(config: &'c Config, value: &str) -> (r: Self)
        requires
            config.bounded(),
        ensures
            r.inv(),
            r.cfg() == *config,
    {
        let mut class_name = ClassName::new(config);
        let segments = split_dom_string(value);
        if segments.len() == 1 {
            add_value_or_argument_segment(segments[0].as_str(), &mut class_name);
        } else if segments.len() == 2 {
            let tokens = crate::utils::split_string(segments[0].as_str(), ':');
            let mut i: usize = 0;
            while i < tokens.len()
                invariant
                    class_name.inv(),
                    class_name.cfg() == *config,
                    class_name.model().argument is None,
                decreases tokens@.len() - i,
            {
                let ghost mid = class_name.model();
                class_name.add_token(tokens[i].as_str());
                proof {
                    lemma_add_token_keeps_argument(
                        *config,
                        mid,
                        class_name.model(),
                        tokens@[i as int]@,
                    );
                }
                i = i + 1;
            }
            add_value_or_argument_segment(segments[1].as_str(), &mut class_name);
        } else {
            class_name.validity = Validity::Invalid;
        }
        class_name
    }
}

impl<'c> PartialEq for ClassName<'c> {
    /// Two class names are the same exactly when they render the same
    /// selector.
    fn eq(&self, other: &Self) -> (r: bool) {
        let a = self.get_selector();
        let b = other.get_selector();
        str_eq(a.as_str(), b.as_str())
    }
}

impl<'c> vstd::std_specs::cmp::PartialEqSpecImpl for ClassName<'c> {
    open spec fn obeys_eq_spec() -> bool {
        true
    }

    open spec fn eq_spec(&self, other: &Self) -> bool {
        spec_selector(self.cfg(), self.model()) == spec_selector(other.cfg(), other.model())
    }
}

impl<'c> PartialOrd for ClassName<'c> {
    /// Class names order by their score.
    fn partial_cmp(&self, other: &Self) -> (r: Option<core::cmp::Ordering>) {
        if self.score < other.score {
            Some(core::cmp::Ordering::Less)
        } else if self.score > other.score {
            Some(core::cmp::Ordering::Greater)
        } else {
            Some(core::cmp::Ordering::Equal)
        }
    }
}

impl<'c> vstd::std_specs::cmp::PartialOrdSpecImpl for ClassName<'c> {
    open spec fn obeys_partial_cmp_spec() -> bool {
        true
    }

    open spec fn partial_cmp_spec(&self, other: &Self) -> Option<core::cmp::Ordering> {
        if self.model().score < other.model().score {
            Some(core::cmp::Ordering::Less)
        } else if self.model().score > other.model().score {
            Some(core::cmp::Ordering::Greater)
        } else {
            Some(core::cmp::Ordering::Equal)
        }
    }
}

/// The model of a freshly created accumulator.
pub open spec fn empty_model() -> ClassModel {
    ClassModel {
        breakpoint: None,
        media_query: None,
        parent_modifier: None,
        modifiers: Seq::empty(),
        groups: Seq::empty(),
        keyframes: Seq::empty(),
        atom: None,
        style_name: None,
        shorthand: None,
        argument: None,
        validity: Validity::Undefined,
        value: None,
        score: 0,
    }
}

} // verus!
