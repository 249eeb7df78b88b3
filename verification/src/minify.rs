//! The boundary of the minifier service, and the ECMA version string it is
//! configured with.

use vstd::prelude::*;

use crate::features::Options;
use crate::text::{chars_of, lower_seq, skip_chars, string_of, to_lower};
use crate::toolchain::Toolchain;

verus! {

/// The ECMA version the minifier is told to emit, derived from the
/// language target: `esnext` maps to `2023`, an `es`-prefixed target keeps
/// what follows the prefix, and anything else falls back to `esnext`.
pub open spec fn ecma_version_of(target: Seq<char>) -> Seq<char> {
    let lt = lower_seq(target);
    if lt == seq!['e', 's', 'n', 'e', 'x', 't'] {
        seq!['2', '0', '2', '3']
    } else if seq!['e', 's'].is_prefix_of(lt) {
        lt.skip(2)
    } else {
        seq!['e', 's', 'n', 'e', 'x', 't']
    }
}

pub fn format_ecma_version_string(target: &str) -> (r: String)
    ensures
        r@ == ecma_version_of(target@),
{
    let chars = chars_of(target);
    let mut low: Vec<char> = Vec::new();
    let mut i: usize = 0;
    while i < chars.len()
        invariant
            i <= chars@.len(),
            low@ == lower_seq(chars@.take(i as int)),
        decreases chars@.len() - i,
    {
        low.push(to_lower(chars[i]));
        i = i + 1;
        proof {
            assert(chars@.take(i as int) =~= chars@.take(i - 1 as int).push(chars@[i - 1]));
            assert(low@ =~= lower_seq(chars@.take(i as int)));
        }
    }
    proof {
        assert(chars@.take(chars@.len() as int) =~= chars@);
    }
    let esnext = chars_of("esnext");
    proof {
        reveal_strlit("esnext");
        assert("esnext"@ =~= seq!['e', 's', 'n', 'e', 'x', 't']);
    }
    if crate::text::starts_with_chars(&low, &esnext) && low.len() == esnext.len() {
        proof {
            assert(low@ =~= seq!['e', 's', 'n', 'e', 'x', 't']);
        }
        let r = String::from_str("2023");
        proof {
            reveal_strlit("2023");
            assert("2023"@ =~= seq!['2', '0', '2', '3']);
        }
        return r;
    }
    let es = chars_of("es");
    proof {
        reveal_strlit("es");
        assert("es"@ =~= seq!['e', 's']);
    }
    if crate::text::starts_with_chars(&low, &es) {
        let rest = skip_chars(&low, 2);
        return string_of(&rest);
    }
    let r = String::from_str("esnext");
    r
}

/// Runs the minifier service with the settings of the flag set.
pub fn minify<S: Toolchain>(text: String, options: &Options, host: &mut S) -> Option<String> {
    let mopts = options.minify_options();
    host.minify(text, &mopts)
}

} // verus!
