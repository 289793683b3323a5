//! How the program names its version.

use vstd::prelude::*;

use crate::text;

verus! {

/// The label of user-facing surfaces.
pub const CODEX_CLI_DISPLAY_NAME: &'static str = "codex-quiet";

pub const CODEX_CLI_PRODUCT_NAME: &'static str = "Quiet for Codex";

/// The version that the updater compares: the release version where the build has one, else the
/// package version. It is never marked.
pub open spec fn bare_version(release: Option<Seq<char>>, package: Seq<char>) -> Seq<char> {
    match release {
        Some(version) => version,
        None => package,
    }
}

pub fn cli_version(release: Option<&str>, package: &str) -> (r: String)
    ensures
        r@ == bare_version(
            match release {
                Some(version) => Some(version@),
                None => None,
            },
            package@,
        ),
{
    match release {
        Some(version) => text::owned(version),
        None => text::owned(package),
    }
}

/// The version that the status card shows. A release sets it. A source build has no release
/// version to report and shows the package version with a `+local` mark, which tells it from a
/// release.
pub open spec fn shown_version(release: Option<Seq<char>>, package: Seq<char>) -> Seq<char> {
    match release {
        Some(version) => version,
        None => "codex-quiet "@ + package + "+local"@,
    }
}

pub fn cli_display_version(release: Option<&str>, package: &str) -> (r: String)
    ensures
        r@ == shown_version(
            match release {
                Some(version) => Some(version@),
                None => None,
            },
            package@,
        ),
{
    match release {
        Some(version) => text::owned(version),
        None => {
            let mut out = text::owned("codex-quiet ");
            out.append(package);
            out.append("+local");
            out
        },
    }
}

/// A source build is always marked, and begins with the display name.
pub proof fn law_source_build_is_marked(package: Seq<char>)
    ensures
        ({
            let shown = shown_version(None, package);
            &&& text::begins_with(shown, "codex-quiet "@)
            &&& shown.len() >= "+local"@.len()
            &&& shown.skip(shown.len() - "+local"@.len()) == "+local"@
        }),
{
    let shown = shown_version(None, package);
    assert(shown.take("codex-quiet "@.len() as int) =~= "codex-quiet "@);
    assert(shown.skip(shown.len() - "+local"@.len()) =~= "+local"@);
}

} // verus!
