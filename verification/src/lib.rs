//! An atomic-CSS class-name engine: it resolves chains of style tokens
//! (breakpoints, media queries, modifiers, atoms, values) against a loaded
//! style configuration, orders the resolved records deterministically, and
//! renders them into a single nested CSS stylesheet.

use vstd::prelude::*;

pub mod config;
pub mod find_up;
pub mod generate_css;
pub mod json;
pub mod scanner;
pub mod ordered_map;
pub mod tsconfig;
pub mod utils;

verus! {

/// Number of spaces used for one level of indentation in rendered CSS.
pub const INDENTATION: u8 = 2;

/// Wrap a CSS custom-property name in `var(...)` unless the configuration
/// already wrapped it.
pub fn wrap_css_variable(value: &str) -> (r: String)
    ensures
        r@ == wrapped_css_variable(value@),
{
    let wrapped = value_is_wrapped(value);
    if wrapped {
        value.to_owned()
    } else {
        let mut out = String::from_str("var(");
        out.append(value);
        out.append(")");
        proof {
            reveal_strlit("var(");
            reveal_strlit(")");
        }
        out
    }
}

/// Whether the value is already of the form `var(...)`.
pub open spec fn spec_value_is_wrapped(value: Seq<char>) -> bool {
    &&& value.len() >= 4
    &&& value.subrange(0, 4) == "var("@
    &&& value.last() == ')'
}

fn value_is_wrapped(value: &str) -> (r: bool)
    ensures
        r == spec_value_is_wrapped(value@),
{
    proof {
        reveal_strlit("var(");
    }
    let n = value.unicode_len();
    if n < 4 {
        return false;
    }
    if value.get_char(n - 1) != ')' {
        proof {
            assert(value@.last() != ')');
        }
        return false;
    }
    let head_ok = value.get_char(0) == 'v' && value.get_char(1) == 'a' && value.get_char(2) == 'r'
        && value.get_char(3) == '(';
    proof {
        if head_ok {
            assert(value@.subrange(0, 4) =~= "var("@);
        } else {
            assert(value@.subrange(0, 4) != "var("@) by {
                if value@.subrange(0, 4) == "var("@ {
                    assert(value@.subrange(0, 4)[0] == 'v');
                    assert(value@.subrange(0, 4)[1] == 'a');
                    assert(value@.subrange(0, 4)[2] == 'r');
                    assert(value@.subrange(0, 4)[3] == '(');
                }
            }
        }
    }
    head_ok
}

/// The value wrapped in `var(...)`, or unchanged when already wrapped.
pub open spec fn wrapped_css_variable(value: Seq<char>) -> Seq<char> {
    if spec_value_is_wrapped(value) {
        value
    } else {
        "var("@ + value + ")"@
    }
}

} // verus!
