//! Whether the APIs that plugins depend on are provided, in versions that
//! match what they require.
use crate::events::first_index;
use crate::text::str_eq;
use vstd::prelude::*;

verus! {

#[verifier::external_type_specification]
#[verifier::external_body]
pub struct ExVersionReq(semver::VersionReq);

#[verifier::external_type_specification]
#[verifier::external_body]
pub struct ExVersion(semver::Version);

/// Whether `semver` reads a text as a version requirement.
pub uninterp spec fn semver_req_parses(text: Seq<char>) -> bool;

/// Whether `semver` reads a text as a version.
pub uninterp spec fn semver_version_parses(text: Seq<char>) -> bool;

/// Whether `semver` finds that the version written `version` matches the
/// requirement written `req`.
pub uninterp spec fn semver_matches(req: Seq<char>, version: Seq<char>) -> bool;

/// A version requirement as `semver` read it, with the text it was read from.
pub struct Requirement {
    req: semver::VersionReq,
    text: Ghost<Seq<char>>,
}

/// A version as `semver` read it, with the text it was read from.
pub struct ApiVersion {
    version: semver::Version,
    text: Ghost<Seq<char>>,
}

impl Requirement {
    pub closed spec fn text(&self) -> Seq<char> {
        self.text@
    }
}

impl ApiVersion {
    pub closed spec fn text(&self) -> Seq<char> {
        self.text@
    }
}

/// Calls `semver::VersionReq::parse`: the requirement, `None` where the text
/// is none; which texts are, the name `semver_req_parses` stands for.
#[verifier::external_body]
fn parse_version_req(text: &str) -> (res: Option<Requirement>)
    ensures
        res is Some == semver_req_parses(text@),
        res matches Some(r) ==> r.text() == text@,
{
    semver::VersionReq::parse(text).ok().map(|req| Requirement { req, text: Ghost(text@) })
}

/// Calls `semver::Version::parse`: the version, `None` where the text is
/// none; which texts are, the name `semver_version_parses` stands for.
#[verifier::external_body]
fn parse_version(text: &str) -> (res: Option<ApiVersion>)
    ensures
        res is Some == semver_version_parses(text@),
        res matches Some(v) ==> v.text() == text@,
{
    semver::Version::parse(text).ok().map(|version| ApiVersion { version, text: Ghost(text@) })
}

/// Calls `semver::VersionReq::matches`. Its answer depends on the requirement
/// and the version alone, and so on the texts they were read from: the name
/// `semver_matches` stands for it.
#[verifier::external_body]
fn req_matches(req: &Requirement, version: &ApiVersion) -> (res: bool)
    ensures
        res == semver_matches(req.text(), version.text()),
{
    req.req.matches(&version.version)
}

/// A dependency that is not met.
#[derive(Clone, Copy, Debug, PartialEq, Eq, Structural)]
pub enum DependencyProblem {
    /// no plugin provides the API that dependency `i` names
    Missing(usize),
    /// dependency `i` names API `j`, whose version does not match the requirement
    Incompatible(usize, usize),
}

/// Why the dependencies could not be checked at all.
#[derive(Clone, Copy, Debug, PartialEq, Eq, Structural)]
pub enum DependencyError {
    /// Couldn't parse the version requirement of dependency `i`
    BadRequirement(usize),
    /// Couldn't parse the version of API `j`
    BadVersion(usize),
}

/// The API that provides a dependency: the first one with its name.
pub open spec fn provider(apis: Seq<(String, String)>, name: Seq<char>) -> Option<nat> {
    first_index(Seq::new(apis.len(), |j: int| apis[j].0), name)
}

/// The first dependency, in order, that cannot be checked: its requirement
/// does not parse, or the version of the API that provides it does not.
pub open spec fn first_error(deps: Seq<(String, String)>, apis: Seq<(String, String)>, from: int) -> Option<DependencyError>
    decreases deps.len() - from,
{
    if from < 0 || from >= deps.len() {
        None
    } else if !semver_req_parses(deps[from].1@) {
        Some(DependencyError::BadRequirement(from as usize))
    } else {
        match provider(apis, deps[from].0@) {
            Some(j) => if !semver_version_parses(apis[j as int].1@) {
                Some(DependencyError::BadVersion(j as usize))
            } else {
                first_error(deps, apis, from + 1)
            },
            None => first_error(deps, apis, from + 1),
        }
    }
}

pub open spec fn problem_dep(p: DependencyProblem) -> int {
    match p {
        DependencyProblem::Missing(i) => i as int,
        DependencyProblem::Incompatible(i, _) => i as int,
    }
}

/// What the problems found are: in order of the dependencies, each missing
/// API, and each API whose version does not match the requirement.
pub open spec fn problems_ok(
    deps: Seq<(String, String)>,
    apis: Seq<(String, String)>,
    problems: Seq<DependencyProblem>,
    upto: int,
) -> bool {
    &&& forall|k: int, l: int|
        0 <= k < l < problems.len() ==> problem_dep(problems[k]) < problem_dep(problems[l])
    &&& forall|k: int|
        0 <= k < problems.len() ==> 0 <= problem_dep(#[trigger] problems[k]) < upto
    &&& forall|k: int|
        0 <= k < problems.len() ==> match #[trigger] problems[k] {
            DependencyProblem::Missing(i) => provider(apis, deps[i as int].0@) is None,
            DependencyProblem::Incompatible(i, j) => provider(apis, deps[i as int].0@) == Some(
                j as nat,
            ) && !semver_matches(deps[i as int].1@, apis[j as int].1@),
        }
    &&& forall|i: int|
        0 <= i < upto && provider(apis, deps[i].0@) is None ==> problems.contains(
            DependencyProblem::Missing(i as usize),
        )
    &&& forall|i: int, j: int|
        0 <= i < upto && 0 <= j && provider(apis, deps[i].0@) == Some(j as nat) && !semver_matches(
            deps[i].1@,
            apis[j].1@,
        ) ==> problems.contains(DependencyProblem::Incompatible(i as usize, j as usize))
}

fn find_provider(apis: &Vec<(String, String)>, name: &str) -> (res: Option<usize>)
    ensures
        match res {
            Some(j) => provider(apis@, name@) == Some(j as nat) && j < apis@.len(),
            None => provider(apis@, name@) is None,
        },
{
    let ghost names = Seq::new(apis@.len(), |j: int| apis@[j].0);
    let mut i: usize = 0;
    while i < apis.len()
        invariant
            i <= apis@.len(),
            names == Seq::new(apis@.len(), |j: int| apis@[j].0),
            forall|j: int| 0 <= j < i ==> names[j]@ != name@,
        decreases apis@.len() - i,
    {
        if str_eq(apis[i].0.as_str(), name) {
            proof {
                crate::events::lemma_first_index_prefix(names, name@, i as int);
            }
            return Some(i);
        }
        i = i + 1;
    }
    proof {
        crate::events::lemma_first_index_prefix(names, name@, names.len() as int);
    }
    None
}

/// Checks that every dependency of a plugin (an API name and a version
/// requirement) is provided by some plugin's API (a name and a version).
pub fn check_dependencies(deps: &Vec<(String, String)>, apis: &Vec<(String, String)>) -> (res:
    Result<Vec<DependencyProblem>, DependencyError>)
    ensures
        match res {
            Ok(problems) => first_error(deps@, apis@, 0) is None && problems_ok(
                deps@,
                apis@,
                problems@,
                deps@.len() as int,
            ),
            Err(e) => first_error(deps@, apis@, 0) == Some(e),
        },
{
    let mut problems: Vec<DependencyProblem> = Vec::new();
    let mut i: usize = 0;
    while i < deps.len()
        invariant
            i <= deps@.len(),
            first_error(deps@, apis@, 0) == first_error(deps@, apis@, i as int),
            problems_ok(deps@, apis@, problems@, i as int),
        decreases deps@.len() - i,
    {
        let ghost before = problems@;
        let req = match parse_version_req(deps[i].1.as_str()) {
            Some(r) => r,
            None => {
                return Err(DependencyError::BadRequirement(i));
            },
        };
        // first check if an API with the name exists
        match find_provider(apis, deps[i].0.as_str()) {
            None => {
                problems.push(DependencyProblem::Missing(i));
                assert(problems@.last() == DependencyProblem::Missing(i));
            },
            Some(j) => {
                // check if the versions match
                let version = match parse_version(apis[j].1.as_str()) {
                    Some(v) => v,
                    None => {
                        return Err(DependencyError::BadVersion(j));
                    },
                };
                if !req_matches(&req, &version) {
                    problems.push(DependencyProblem::Incompatible(i, j));
                }
            },
        }
        proof {
            assert forall|d: int, a: int|
                0 <= d < i + 1 && 0 <= a && provider(apis@, deps@[d].0@) == Some(a as nat) && !semver_matches(
                    deps@[d].1@,
                    apis@[a].1@,
                ) implies problems@.contains(DependencyProblem::Incompatible(d as usize, a as usize)) by {
                if d == i as int {
                    assert(problems@[problems@.len() - 1] == DependencyProblem::Incompatible(
                        d as usize,
                        a as usize,
                    ));
                } else {
                    let k = choose|k: int|
                        0 <= k < before.len() && before[k] == DependencyProblem::Incompatible(
                            d as usize,
                            a as usize,
                        );
                    assert(problems@[k] == before[k]);
                }
            }
            assert forall|d: int|
                0 <= d < i + 1 && provider(apis@, deps@[d].0@) is None implies problems@.contains(
                DependencyProblem::Missing(d as usize),
            ) by {
                if d == i as int {
                    assert(problems@[problems@.len() - 1] == DependencyProblem::Missing(i));
                } else {
                    assert(before.contains(DependencyProblem::Missing(d as usize)));
                    let k = choose|k: int|
                        0 <= k < before.len() && before[k] == DependencyProblem::Missing(
                            d as usize,
                        );
                    assert(problems@[k] == before[k]);
                }
            }
        }
        i = i + 1;
    }
    Ok(problems)
}

} // verus!
