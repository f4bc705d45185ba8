//! The ignore-rule matcher, an outside collaborator.
//!
//! The rules are compiled gitignore globs; the aggregator asks one question
//! of them — what they answer for a relative path — and treats only an
//! explicit ignore answer as suppressing a change.

use ignore::gitignore::Gitignore;
use vstd::prelude::*;

verus! {

#[verifier::external_type_specification]
#[verifier::external_body]
pub struct ExGitignore(Gitignore);

/// The three answers the ignore rules give for a relative path. Only
/// `Ignored` suppresses a change; `Whitelisted` and `NoMatch` both let it
/// through.
#[derive(Clone, Copy, Debug, PartialEq, Eq, Structural)]
pub enum IgnoreVerdict {
    Ignored,
    Whitelisted,
    NoMatch,
}

/// What the compiled ignore rules answer for a relative path: a function of
/// the rules and the path alone.
pub uninterp spec fn verdict_of(rules: Gitignore, rel: Seq<u8>) -> IgnoreVerdict;

/// Relies on `ignore::gitignore::Gitignore::matched_path_or_any_parents`:
/// its answer depends only on the compiled globs and the queried path. The
/// outside function strips a leading `./` and the matcher root's prefix
/// from the path bytewise and then panics if a filesystem root remains, so
/// only canonical relative paths are admitted — no leading separator, no
/// leading `./`, no doubled separator — which leave no root whatever the
/// matcher's own root is. Bytes that are not text are matched by their
/// lossy text form: still one verdict per byte string.
#[verifier::external_body]
pub(crate) fn query_rules(rules: &Gitignore, rel: &Vec<u8>) -> (r: IgnoreVerdict)
    requires
        crate::paths::clean_rel(rel@),
    ensures
        r == verdict_of(*rules, rel@),
{
    let text = String::from_utf8_lossy(rel.as_slice());
    match rules.matched_path_or_any_parents(std::path::Path::new(&*text), false) {
        ignore::Match::Ignore(_) => IgnoreVerdict::Ignored,
        ignore::Match::Whitelist(_) => IgnoreVerdict::Whitelisted,
        ignore::Match::None => IgnoreVerdict::NoMatch,
    }
}

} // verus!
