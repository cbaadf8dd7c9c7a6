//! Where the browsers are installed.

use vstd::prelude::*;

verus! {

/// The environment variables that name the install roots, in the order in
/// which the roots are searched.
pub open spec fn install_root_variables_spec() -> Seq<Seq<char>> {
    seq!["PROGRAMFILES"@, "PROGRAMFILES(X86)"@, "LOCALAPPDATA"@]
}

pub fn install_root_variables() -> (r: Vec<&'static str>)
    ensures
        r@.map_values(|v: &'static str| v@) == install_root_variables_spec(),
{
    let r = vec!["PROGRAMFILES", "PROGRAMFILES(X86)", "LOCALAPPDATA"];
    assert(r@.map_values(|v: &'static str| v@) =~= install_root_variables_spec());
    r
}

/// Chrome's executable, below one of the install roots.
pub const CHROME_RELATIVE_PATH: &'static str = "Google\\Chrome\\Application\\chrome.exe";

/// Firefox's executable, below one of the install roots.
pub const FIREFOX_RELATIVE_PATH: &'static str = "Mozilla Firefox\\firefox.exe";

/// What a search over install roots came to: the index of the root whose
/// probe found the executable, with every set root before it probed in vain;
/// or no root found it.
pub open spec fn search_result<B, P, F: Fn(&B, &str) -> Option<P>>(
    roots: Seq<Option<B>>,
    relative: &str,
    probe: F,
    r: Option<P>,
) -> bool {
    match r {
        Some(p) => exists|k: int|
            0 <= k < roots.len() && #[trigger] roots[k] is Some && call_ensures(
                probe,
                (&roots[k]->0, relative),
                Some(p),
            ) && forall|j: int|
                0 <= j < k && #[trigger] roots[j] is Some ==> call_ensures(
                    probe,
                    (&roots[j]->0, relative),
                    None,
                ),
        None => forall|j: int|
            0 <= j < roots.len() && #[trigger] roots[j] is Some ==> call_ensures(
                probe,
                (&roots[j]->0, relative),
                None,
            ),
    }
}

/// The first install root, in order, below which `probe` finds `relative`;
/// roots that are not set are skipped.
pub fn browser_path<B, P, F: Fn(&B, &str) -> Option<P>>(
    roots: &Vec<Option<B>>,
    relative: &str,
    probe: &F,
) -> (r: Option<P>)
    requires
        forall|b: &B| #[trigger] probe.requires((b, relative)),
    ensures
        search_result(roots@, relative, *probe, r),
{
    let mut k: usize = 0;
    while k < roots.len()
        invariant
            k <= roots.len(),
            forall|b: &B| #[trigger] probe.requires((b, relative)),
            forall|j: int|
                0 <= j < k && #[trigger] roots@[j] is Some ==> call_ensures(
                    *probe,
                    (&roots@[j]->0, relative),
                    None,
                ),
        decreases roots.len() - k,
    {
        match &roots[k] {
            Some(base) => {
                let found = probe(base, relative);
                match found {
                    Some(p) => {
                        return Some(p);
                    },
                    None => {},
                }
            },
            None => {},
        }
        k += 1;
    }
    None
}


/// Chrome's executable below the first install root that holds it.
pub fn find_chrome<B, P, F: Fn(&B, &str) -> Option<P>>(roots: &Vec<Option<B>>, probe: &F) -> (r:
    Option<P>)
    requires
        forall|b: &B| #[trigger] probe.requires((b, CHROME_RELATIVE_PATH)),
    ensures
        search_result(roots@, CHROME_RELATIVE_PATH, *probe, r),
{
    browser_path(roots, CHROME_RELATIVE_PATH, probe)
}

/// Firefox's executable below the first install root that holds it.
pub fn find_firefox<B, P, F: Fn(&B, &str) -> Option<P>>(roots: &Vec<Option<B>>, probe: &F) -> (r:
    Option<P>)
    requires
        forall|b: &B| #[trigger] probe.requires((b, FIREFOX_RELATIVE_PATH)),
    ensures
        search_result(roots@, FIREFOX_RELATIVE_PATH, *probe, r),
{
    browser_path(roots, FIREFOX_RELATIVE_PATH, probe)
}

} // verus!
