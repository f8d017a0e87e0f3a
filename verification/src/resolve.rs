//! Declaration resolution: a structured declaration carries its location and
//! is opened as it is; a plain path is kept when it already parses as an
//! absolute URL, else appended to the configured base location.

use vstd::prelude::*;
use vstd::string::StringExecFns;
use crate::Declaration;

verus! {

/// Whether a string parses as an absolute URL.
pub uninterp spec fn url_parses(s: Seq<char>) -> bool;

/// Decides whether the string is an absolute URL.
///
/// Relies on `url::Url::parse`: whether a string parses as a URL is a
/// function of the string alone.
#[verifier::external_body]
fn parses_as_url(s: &str) -> (r: bool)
    ensures
        r == url_parses(s@),
{
    url::Url::parse(s).is_ok()
}

/// What a path string resolves to: itself when it is already an absolute
/// URL, else the base location, a separator, and the path.
pub open spec fn resolve_path_spec(u: Seq<char>, base: Seq<char>) -> Seq<char> {
    if url_parses(u) {
        u
    } else {
        base + seq!['/'] + u
    }
}

/// What a declaration resolves to: a structured declaration already carries
/// its absolute location and is used as it is; a plain path string is kept
/// when it parses as an absolute URL, else appended to the base location.
pub open spec fn resolve_spec(d: Declaration, base: Seq<char>) -> Seq<char> {
    match d {
        Declaration::NixOS(s) => resolve_path_spec(s@, base),
        Declaration::Nmd(n) => n.url@,
    }
}

/// Each declaration of a record resolved against the base location, in
/// declaration order.
pub open spec fn resolved_decls(decls: Seq<Declaration>, base: Seq<char>) -> Seq<Seq<char>> {
    decls.map_values(|d: Declaration| resolve_spec(d, base))
}

/// Resolves one declaration against the base location.
pub fn resolve_declaration(decl: &Declaration, base: &str) -> (r: String)
    ensures
        r@ == resolve_spec(*decl, base@),
{
    match decl {
        Declaration::Nmd(n) => n.url.clone(),
        Declaration::NixOS(s) => {
            if parses_as_url(s.as_str()) {
                s.clone()
            } else {
                let joined = String::from_str(base).concat("/").concat(s.as_str());
                proof {
                    reveal_strlit("/");
                    assert("/"@ =~= seq!['/']);
                    assert(joined@ =~= base@ + seq!['/'] + s@);
                }
                joined
            }
        },
    }
}

/// Resolves every declaration of a record, in order.
pub fn resolve_all(decls: &Vec<Declaration>, base: &str) -> (r: Vec<String>)
    ensures
        r@.map_values(|s: String| s@) == resolved_decls(decls@, base@),
{
    let mut out: Vec<String> = Vec::new();
    let mut i: usize = 0;
    while i < decls.len()
        invariant
            i <= decls@.len(),
            out@.len() == i,
            forall|q: int| 0 <= q < i ==> (#[trigger] out@[q])@ == resolve_spec(decls@[q], base@),
        decreases decls@.len() - i,
    {
        let s = resolve_declaration(&decls[i], base);
        out.push(s);
        i = i + 1;
    }
    proof {
        assert(out@.map_values(|s: String| s@) =~= resolved_decls(decls@, base@));
    }
    out
}

} // verus!
