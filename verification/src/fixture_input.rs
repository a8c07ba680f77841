//! The dependency-resolution input of the cross-ecosystem fixture,
//! assembled from facts that were read, never invented: the host triple,
//! the Cargo and Nimble manifest facts, the FFI requirements the Rust
//! source declares (already filtered by the build's active features), and
//! the exports each Nim source and C/C++ header declares. Discovering
//! those declarations in source text, and reading the files, happen
//! before this assembly; nothing here compiles anything.

use vstd::prelude::*;

use crate::command_runner::{IngestError, IngestErrorView};
use crate::cross_ecosystem_ingest::{CargoManifestFacts, NimbleManifestFacts};
use crate::resource_scheduler::strings_view;
use crate::text::{owned, push_str};

verus! {

/// The ecosystem a source module or package belongs to.
#[derive(Debug, Clone, Copy, PartialEq, Eq, Structural)]
pub enum Ecosystem {
    Cargo,
    Nimble,
    C,
    Cpp,
}

/// The role an ingested package plays: every candidate here is a build
/// target.
#[derive(Debug, Clone, Copy, PartialEq, Eq, Structural)]
pub enum Role {
    Target,
}

/// The kind of artifact a package is declared to output.
#[derive(Debug, Clone, Copy, PartialEq, Eq, Structural)]
pub enum ArtifactOutputKind {
    RustObject,
    NimStaticLibrary,
    CObject,
    CStaticArchive,
    CppAdapterObject,
    CppStaticArchive,
    NativeExecutable,
}

/// One source file and the package it belongs to.
#[derive(Debug, Clone, PartialEq, Eq)]
pub struct SourceModuleFacts {
    pub id: String,
    pub ecosystem: Ecosystem,
    pub package_id: String,
}

/// One function a source declares it exports.
#[derive(Debug, Clone, PartialEq, Eq)]
pub struct FfiExportFacts {
    pub declaring_source: String,
    pub symbol: String,
    pub abi: String,
    pub param_count: usize,
    pub return_type: String,
}

/// One foreign function a source declares it requires.
#[derive(Debug, Clone, PartialEq, Eq)]
pub struct FfiRequirementFacts {
    pub declaring_source: String,
    pub symbol: String,
    pub abi: String,
    pub param_count: usize,
    pub return_type: String,
    pub expected_provider_package: String,
}

/// One package offered as a candidate.
#[derive(Debug, Clone, PartialEq, Eq)]
pub struct PackageCandidateFacts {
    pub ecosystem: Ecosystem,
    pub package_id: String,
    pub version: String,
    pub role: Role,
    pub target_triple: String,
    pub sources: Vec<String>,
    pub declared_exports: Vec<FfiExportFacts>,
    pub declared_constraints: Vec<String>,
}

/// A source that must be lowerable for the demanded target.
#[derive(Debug, Clone, PartialEq, Eq)]
pub struct LoweringRequirementFacts {
    pub package_id: String,
    pub source_id: String,
    pub description: String,
}

/// The ABI a boundary symbol must have on the target.
#[derive(Debug, Clone, PartialEq, Eq)]
pub struct AbiConstraintFacts {
    pub boundary_symbol: String,
    pub abi: String,
    pub target_triple: String,
}

/// One artifact a package is declared to output.
#[derive(Debug, Clone, PartialEq, Eq)]
pub struct ArtifactOutputFacts {
    pub id: String,
    pub package_id: String,
    pub kind: ArtifactOutputKind,
}

/// What the target's runtime needs that is not bundled.
#[derive(Debug, Clone, PartialEq, Eq)]
pub struct RuntimeRequirementFacts {
    pub target_triple: String,
    pub description: String,
}

/// Everything dependency resolution reads.
#[derive(Debug, Clone, PartialEq, Eq)]
pub struct DependencyResolutionInput {
    pub demand_entry_point: String,
    pub target_triple: String,
    pub host_toolchain_id: String,
    pub sources: Vec<SourceModuleFacts>,
    pub package_candidates: Vec<PackageCandidateFacts>,
    pub ffi_requirements: Vec<FfiRequirementFacts>,
    pub lowering_requirements: Vec<LoweringRequirementFacts>,
    pub abi_constraints: Vec<AbiConstraintFacts>,
    pub declared_outputs: Vec<ArtifactOutputFacts>,
    pub runtime_requirements: Vec<RuntimeRequirementFacts>,
}

/// The Rust application's source, as recorded.
pub const APP_SOURCE_ID: &'static str = "app/src/main.rs";

/// The Nim package's source, as recorded.
pub const DOUBLER_SOURCE_ID: &'static str = "nimble/doubler/src/doubler.nim";

/// The C++ adapter's implementation, as recorded.
pub const CPPMAX_SOURCE_ID: &'static str = "cpp/cppmax/cppmax.cpp";

/// The C++ adapter's header, as recorded.
pub const CPPMAX_HEADER_ID: &'static str = "cpp/cppmax/cppmax.h";

/// `s` is the source `id` of package `pkg` in ecosystem `eco`.
pub open spec fn source_is(s: SourceModuleFacts, id: Seq<char>, eco: Ecosystem, pkg: Seq<char>) -> bool {
    s.id@ == id && s.ecosystem == eco && s.package_id@ == pkg
}

/// `c` is a target candidate with these facts.
pub open spec fn candidate_is(
    c: PackageCandidateFacts,
    eco: Ecosystem,
    pkg: Seq<char>,
    version: Seq<char>,
    triple: Seq<char>,
    sources: Seq<Seq<char>>,
    exports: Seq<FfiExportFacts>,
    constraints: Seq<Seq<char>>,
) -> bool {
    &&& c.ecosystem == eco
    &&& c.package_id@ == pkg
    &&& c.version@ == version
    &&& c.role == Role::Target
    &&& c.target_triple@ == triple
    &&& strings_view(c.sources@) == sources
    &&& c.declared_exports@ == exports
    &&& strings_view(c.declared_constraints@) == constraints
}

/// Where the requested `cadd` variant's sources live (their id prefix):
/// only the two variants the fixture carries are known.
pub fn cadd_source_prefix(version: &str) -> (r: Result<String, IngestError>)
    ensures
        version@ == "1.0.0"@ ==> (r matches Ok(p) && p@ == "c/cadd/v1/cadd"@),
        version@ == "2.0.0"@ ==> (r matches Ok(p) && p@ == "c/cadd/v2/cadd"@),
        version@ != "1.0.0"@ && version@ != "2.0.0"@ ==> (r matches Err(e)
            && e@ == IngestErrorView::Parse("unknown cadd candidate version requested: "@ + version@)),
{
    proof {
        reveal_strlit("1.0.0");
        reveal_strlit("2.0.0");
        assert("1.0.0"@[0] != "2.0.0"@[0]);
    }
    if crate::text::str_eq(version, "1.0.0") {
        Ok(owned("c/cadd/v1/cadd"))
    } else if crate::text::str_eq(version, "2.0.0") {
        Ok(owned("c/cadd/v2/cadd"))
    } else {
        let mut m = owned("unknown cadd candidate version requested: ");
        push_str(&mut m, version);
        Err(IngestError::Parse(m))
    }
}

/// Each text with `prefix` in front.
pub open spec fn prefixed(prefix: Seq<char>, items: Seq<Seq<char>>) -> Seq<Seq<char>> {
    items.map_values(|x: Seq<char>| prefix + x)
}

fn prefix_all(prefix: &str, items: &Vec<String>) -> (r: Vec<String>)
    ensures
        strings_view(r@) == prefixed(prefix@, strings_view(items@)),
{
    let mut out: Vec<String> = Vec::new();
    let mut k: usize = 0;
    while k < items.len()
        invariant
            k <= items@.len(),
            strings_view(out@) == prefixed(prefix@, strings_view(items@).take(k as int)),
        decreases items@.len() - k,
    {
        let mut x = owned(prefix);
        push_str(&mut x, items[k].as_str());
        let ghost prev = out@;
        out.push(x);
        proof {
            assert(strings_view(out@) =~= strings_view(prev).push(prefix@ + items@[k as int]@));
            assert(strings_view(items@).take(k + 1) =~= strings_view(items@).take(k as int).push(items@[k as int]@));
            assert(prefixed(prefix@, strings_view(items@).take(k + 1)) =~= prefixed(prefix@, strings_view(items@).take(k as int)).push(
                prefix@ + items@[k as int]@,
            ));
        }
        k = k + 1;
    }
    proof {
        assert(strings_view(items@).take(items@.len() as int) =~= strings_view(items@));
    }
    out
}

fn source(id: &str, ecosystem: Ecosystem, package_id: &str) -> (r: SourceModuleFacts)
    ensures
        source_is(r, id@, ecosystem, package_id@),
{
    SourceModuleFacts { id: owned(id), ecosystem, package_id: owned(package_id) }
}

/// The id prefix of a known `cadd` variant's sources.
pub open spec fn cadd_prefix(version: Seq<char>) -> Option<Seq<char>> {
    if version == "1.0.0"@ {
        Some("c/cadd/v1/cadd"@)
    } else if version == "2.0.0"@ {
        Some("c/cadd/v2/cadd"@)
    } else {
        None
    }
}

/// The position of the first version that is not a known `cadd` variant.
pub open spec fn first_unknown_cadd(versions: Seq<Seq<char>>) -> Option<int>
    decreases versions.len(),
{
    if versions.len() == 0 {
        None
    } else {
        match first_unknown_cadd(versions.drop_last()) {
            Some(k) => Some(k),
            None => if cadd_prefix(versions.last()) is Some { None } else { Some(versions.len() - 1) },
        }
    }
}

proof fn lemma_first_unknown_prefix(versions: Seq<Seq<char>>, n: int)
    requires
        0 <= n <= versions.len(),
        first_unknown_cadd(versions.take(n)) is Some,
    ensures
        first_unknown_cadd(versions) == first_unknown_cadd(versions.take(n)),
    decreases versions.len() - n,
{
    if n < versions.len() {
        assert(versions.take(n + 1).drop_last() =~= versions.take(n));
        lemma_first_unknown_prefix(versions, n + 1);
    } else {
        assert(versions.take(n) =~= versions);
    }
}

/// The source prefixes of the `cadd` candidates offered, one per requested
/// version in order; the first version that names no known variant fails
/// the ingestion, naming it.
pub fn cadd_source_prefixes(versions: &Vec<String>) -> (r: Result<Vec<String>, IngestError>)
    ensures
        match first_unknown_cadd(strings_view(versions@)) {
            Some(k) => r matches Err(e) && e@ == IngestErrorView::Parse(
                "unknown cadd candidate version requested: "@ + versions@[k]@,
            ),
            None => r matches Ok(ps) && ps@.len() == versions@.len() && forall|i: int| 0 <= i < ps@.len()
                ==> Some(#[trigger] ps@[i]@) == cadd_prefix(versions@[i]@),
        },
{
    let ghost vs = strings_view(versions@);
    let mut out: Vec<String> = Vec::new();
    let mut k: usize = 0;
    proof {
        reveal_strlit("1.0.0");
        reveal_strlit("2.0.0");
        assert("1.0.0"@[0] != "2.0.0"@[0]);
    }
    while k < versions.len()
        invariant
            k <= versions@.len(),
            vs == strings_view(versions@),
            first_unknown_cadd(vs.take(k as int)) is None,
            out@.len() == k,
            forall|i: int| 0 <= i < k ==> Some(#[trigger] out@[i]@) == cadd_prefix(versions@[i]@),
            "1.0.0"@ != "2.0.0"@,
        decreases versions@.len() - k,
    {
        proof {
            assert(vs.take(k + 1).drop_last() =~= vs.take(k as int));
            assert(vs.take(k + 1).last() == versions@[k as int]@);
        }
        match cadd_source_prefix(versions[k].as_str()) {
            Ok(p) => {
                out.push(p);
            },
            Err(e) => {
                proof {
                    lemma_first_unknown_prefix(vs, k + 1);
                }
                return Err(e);
            },
        }
        k = k + 1;
    }
    proof {
        assert(vs.take(k as int) =~= vs);
    }
    Ok(out)
}

/// One C-family candidate from its implementation and header pair
/// (`<prefix>.c`, `<prefix>.h`): both are its sources, and its declared
/// exports are those its header declares.
pub fn ingest_c_candidate(
    source_id_prefix: &str,
    package_id: &str,
    version: &str,
    target_triple: &str,
    declared_exports: Vec<FfiExportFacts>,
) -> (r: (Vec<SourceModuleFacts>, PackageCandidateFacts))
    ensures
        r.0@.len() == 2,
        source_is(r.0@[0], source_id_prefix@ + ".c"@, Ecosystem::C, package_id@),
        source_is(r.0@[1], source_id_prefix@ + ".h"@, Ecosystem::C, package_id@),
        candidate_is(
            r.1,
            Ecosystem::C,
            package_id@,
            version@,
            target_triple@,
            seq![source_id_prefix@ + ".c"@, source_id_prefix@ + ".h"@],
            declared_exports@,
            Seq::empty(),
        ),
{
    let mut c_id = owned(source_id_prefix);
    push_str(&mut c_id, ".c");
    let mut h_id = owned(source_id_prefix);
    push_str(&mut h_id, ".h");
    let mut sources: Vec<SourceModuleFacts> = Vec::new();
    sources.push(source(c_id.as_str(), Ecosystem::C, package_id));
    sources.push(source(h_id.as_str(), Ecosystem::C, package_id));
    let mut ids: Vec<String> = Vec::new();
    ids.push(c_id);
    ids.push(h_id);
    proof {
        assert(strings_view(ids@) =~= seq![source_id_prefix@ + ".c"@, source_id_prefix@ + ".h"@]);
    }
    let candidate = PackageCandidateFacts {
        ecosystem: Ecosystem::C,
        package_id: owned(package_id),
        version: owned(version),
        role: Role::Target,
        target_triple: owned(target_triple),
        sources: ids,
        declared_exports,
        declared_constraints: Vec::new(),
    };
    proof {
        assert(strings_view(candidate.declared_constraints@) =~= Seq::<Seq<char>>::empty());
    }
    (sources, candidate)
}

/// The sources of the offered C candidates, candidate by candidate.
pub open spec fn candidate_sources(cs: Seq<(Vec<SourceModuleFacts>, PackageCandidateFacts)>) -> Seq<SourceModuleFacts>
    decreases cs.len(),
{
    if cs.len() == 0 {
        Seq::empty()
    } else {
        candidate_sources(cs.drop_last()) + cs.last().0@
    }
}

/// The ABI constraint each FFI requirement imposes on the target.
pub open spec fn abi_constraint_for(r: FfiRequirementFacts, a: AbiConstraintFacts, triple: Seq<char>) -> bool {
    a.boundary_symbol@ == r.symbol@ && a.abi@ == r.abi@ && a.target_triple@ == triple
}

/// `o` is the declared output `id` of `pkg`, of kind `k`.
pub open spec fn output_is(o: ArtifactOutputFacts, id: Seq<char>, pkg: Seq<char>, k: ArtifactOutputKind) -> bool {
    o.id@ == id && o.package_id@ == pkg && o.kind == k
}

fn output(id: String, package_id: &str, kind: ArtifactOutputKind) -> (r: ArtifactOutputFacts)
    ensures
        output_is(r, id@, package_id@, kind),
{
    ArtifactOutputFacts { id, package_id: owned(package_id), kind }
}

fn labelled(label: &str, name: &str) -> (r: String)
    ensures
        r@ == label@ + name@,
{
    let mut m = owned(label);
    push_str(&mut m, name);
    m
}

/// The fixture's dependency-resolution input: the Rust application
/// demands on the host triple, built with the `nim` host toolchain. Its
/// sources are the application's, the Nim package's, those of each
/// offered C candidate in order, and the C++ adapter's implementation and
/// header; its candidates are the Cargo package (its features as
/// constraints), the Nimble package (its requirements as constraints,
/// its exports as declared), each offered C candidate, and the C++
/// adapter (version 1.0.0, the exports its header declares). Both Rust
/// and Nim sources must be lowerable; every FFI requirement fixes its
/// symbol's ABI on the target; the seven outputs of the native chain are
/// declared; and the target's OS loader contract is a runtime
/// requirement that is not bundled.
#[verifier::rlimit(60)]
pub fn assemble_fixture_input(
    target_triple: &str,
    cargo: &CargoManifestFacts,
    nimble: &NimbleManifestFacts,
    ffi_requirements: Vec<FfiRequirementFacts>,
    nim_exports: Vec<FfiExportFacts>,
    c_candidates: Vec<(Vec<SourceModuleFacts>, PackageCandidateFacts)>,
    cppmax_exports: Vec<FfiExportFacts>,
) -> (r: DependencyResolutionInput)
    ensures
        r.demand_entry_point@ == cargo.package_name@,
        r.target_triple@ == target_triple@,
        r.host_toolchain_id@ == "nim"@,
        ({
            let cs = candidate_sources(c_candidates@);
            &&& r.sources@.len() == 4 + cs.len()
            &&& source_is(r.sources@[0], APP_SOURCE_ID@, Ecosystem::Cargo, cargo.package_name@)
            &&& source_is(r.sources@[1], DOUBLER_SOURCE_ID@, Ecosystem::Nimble, nimble.package_name@)
            &&& forall|i: int| 0 <= i < cs.len() ==> #[trigger] r.sources@[2 + i] == cs[i]
            &&& source_is(r.sources@[2 + cs.len() as int], CPPMAX_SOURCE_ID@, Ecosystem::Cpp, "cppmax"@)
            &&& source_is(r.sources@[3 + cs.len() as int], CPPMAX_HEADER_ID@, Ecosystem::Cpp, "cppmax"@)
        }),
        r.package_candidates@.len() == 3 + c_candidates@.len(),
        candidate_is(
            r.package_candidates@[0],
            Ecosystem::Cargo,
            cargo.package_name@,
            cargo.version@,
            target_triple@,
            seq![APP_SOURCE_ID@],
            Seq::empty(),
            prefixed("feature:"@, strings_view(cargo.features@)),
        ),
        candidate_is(
            r.package_candidates@[1],
            Ecosystem::Nimble,
            nimble.package_name@,
            nimble.version@,
            target_triple@,
            seq![DOUBLER_SOURCE_ID@],
            nim_exports@,
            prefixed("requires:"@, strings_view(nimble.requires@)),
        ),
        forall|i: int| 0 <= i < c_candidates@.len() ==> #[trigger] r.package_candidates@[2 + i] == c_candidates@[i].1,
        candidate_is(
            r.package_candidates@[2 + c_candidates@.len() as int],
            Ecosystem::Cpp,
            "cppmax"@,
            "1.0.0"@,
            target_triple@,
            seq![CPPMAX_SOURCE_ID@, CPPMAX_HEADER_ID@],
            cppmax_exports@,
            Seq::empty(),
        ),
        r.ffi_requirements@ == ffi_requirements@,
        r.lowering_requirements@.len() == 2,
        r.lowering_requirements@[0].package_id@ == cargo.package_name@,
        r.lowering_requirements@[0].source_id@ == APP_SOURCE_ID@,
        r.lowering_requirements@[0].description@ == "Rust application source is lowering-feasible for the demanded target"@,
        r.lowering_requirements@[1].package_id@ == nimble.package_name@,
        r.lowering_requirements@[1].source_id@ == DOUBLER_SOURCE_ID@,
        r.lowering_requirements@[1].description@ == "Nim package source is lowering-feasible for the demanded target"@,
        r.abi_constraints@.len() == ffi_requirements@.len(),
        forall|i: int| 0 <= i < ffi_requirements@.len() ==> abi_constraint_for(
            ffi_requirements@[i],
            #[trigger] r.abi_constraints@[i],
            target_triple@,
        ),
        r.declared_outputs@.len() == 7,
        output_is(r.declared_outputs@[0], "object:"@ + cargo.package_name@, cargo.package_name@, ArtifactOutputKind::RustObject),
        output_is(r.declared_outputs@[1], "archive:"@ + nimble.package_name@, nimble.package_name@, ArtifactOutputKind::NimStaticLibrary),
        output_is(r.declared_outputs@[2], "object:cadd"@, "cadd"@, ArtifactOutputKind::CObject),
        output_is(r.declared_outputs@[3], "archive:cadd"@, "cadd"@, ArtifactOutputKind::CStaticArchive),
        output_is(r.declared_outputs@[4], "object:cppmax"@, "cppmax"@, ArtifactOutputKind::CppAdapterObject),
        output_is(r.declared_outputs@[5], "archive:cppmax"@, "cppmax"@, ArtifactOutputKind::CppStaticArchive),
        output_is(r.declared_outputs@[6], "executable:"@ + cargo.package_name@, cargo.package_name@, ArtifactOutputKind::NativeExecutable),
        r.runtime_requirements@.len() == 1,
        r.runtime_requirements@[0].target_triple@ == target_triple@,
        r.runtime_requirements@[0].description@ == "OS ABI/dynamic loader contract for target '"@ + target_triple@ + "' is not bundled"@,
{
    let pkg = cargo.package_name.as_str();
    let nim_pkg = nimble.package_name.as_str();

    let mut sources: Vec<SourceModuleFacts> = Vec::new();
    sources.push(source(APP_SOURCE_ID, Ecosystem::Cargo, pkg));
    sources.push(source(DOUBLER_SOURCE_ID, Ecosystem::Nimble, nim_pkg));

    let mut app_sources: Vec<String> = Vec::new();
    app_sources.push(owned(APP_SOURCE_ID));
    let mut nim_sources: Vec<String> = Vec::new();
    nim_sources.push(owned(DOUBLER_SOURCE_ID));
    proof {
        assert(strings_view(app_sources@) =~= seq![APP_SOURCE_ID@]);
        assert(strings_view(nim_sources@) =~= seq![DOUBLER_SOURCE_ID@]);
    }
    let app_candidate = PackageCandidateFacts {
        ecosystem: Ecosystem::Cargo,
        package_id: owned(pkg),
        version: cargo.version.clone(),
        role: Role::Target,
        target_triple: owned(target_triple),
        sources: app_sources,
        declared_exports: Vec::new(),
        declared_constraints: prefix_all("feature:", &cargo.features),
    };
    let nim_candidate = PackageCandidateFacts {
        ecosystem: Ecosystem::Nimble,
        package_id: owned(nim_pkg),
        version: nimble.version.clone(),
        role: Role::Target,
        target_triple: owned(target_triple),
        sources: nim_sources,
        declared_exports: nim_exports,
        declared_constraints: prefix_all("requires:", &nimble.requires),
    };
    let mut package_candidates: Vec<PackageCandidateFacts> = Vec::new();
    package_candidates.push(app_candidate);
    package_candidates.push(nim_candidate);

    let ghost cands = c_candidates@;
    let ghost base_sources = sources@;
    let ghost base_cands = package_candidates@;
    let mut rest = c_candidates;
    let n = rest.len();
    let mut k: usize = 0;
    while k < n
        invariant
            n == cands.len(),
            k <= n,
            rest@ == cands.skip(k as int),
            sources@ == base_sources + candidate_sources(cands.take(k as int)),
            package_candidates@ == base_cands + cands.take(k as int).map_values(
                |c: (Vec<SourceModuleFacts>, PackageCandidateFacts)| c.1,
            ),
        decreases n - k,
    {
        proof {
            assert(rest@.len() == n - k);
        }
        let (srcs, cand) = rest.remove(0);
        let mut srcs = srcs;
        let ghost added = srcs@;
        sources.append(&mut srcs);
        package_candidates.push(cand);
        proof {
            assert(cands.skip(k as int)[0] == cands[k as int]);
            assert(cands.skip(k as int).remove(0) =~= cands.skip(k + 1));
            assert(cands.take(k + 1).drop_last() =~= cands.take(k as int));
            assert(cands.take(k + 1).last() == cands[k as int]);
            assert(sources@ =~= base_sources + candidate_sources(cands.take(k + 1)));
            assert(cands.take(k + 1).map_values(|c: (Vec<SourceModuleFacts>, PackageCandidateFacts)| c.1) =~= cands.take(
                k as int,
            ).map_values(|c: (Vec<SourceModuleFacts>, PackageCandidateFacts)| c.1).push(cands[k as int].1));
        }
        k = k + 1;
    }
    proof {
        assert(cands.take(n as int) =~= cands);
    }

    sources.push(source(CPPMAX_SOURCE_ID, Ecosystem::Cpp, "cppmax"));
    sources.push(source(CPPMAX_HEADER_ID, Ecosystem::Cpp, "cppmax"));
    let mut cpp_sources: Vec<String> = Vec::new();
    cpp_sources.push(owned(CPPMAX_SOURCE_ID));
    cpp_sources.push(owned(CPPMAX_HEADER_ID));
    proof {
        assert(strings_view(cpp_sources@) =~= seq![CPPMAX_SOURCE_ID@, CPPMAX_HEADER_ID@]);
    }
    let cpp_candidate = PackageCandidateFacts {
        ecosystem: Ecosystem::Cpp,
        package_id: owned("cppmax"),
        version: owned("1.0.0"),
        role: Role::Target,
        target_triple: owned(target_triple),
        sources: cpp_sources,
        declared_exports: cppmax_exports,
        declared_constraints: Vec::new(),
    };
    proof {
        assert(strings_view(cpp_candidate.declared_constraints@) =~= Seq::<Seq<char>>::empty());
    }
    package_candidates.push(cpp_candidate);

    let mut lowering_requirements: Vec<LoweringRequirementFacts> = Vec::new();
    lowering_requirements.push(LoweringRequirementFacts {
        package_id: owned(pkg),
        source_id: owned(APP_SOURCE_ID),
        description: owned("Rust application source is lowering-feasible for the demanded target"),
    });
    lowering_requirements.push(LoweringRequirementFacts {
        package_id: owned(nim_pkg),
        source_id: owned(DOUBLER_SOURCE_ID),
        description: owned("Nim package source is lowering-feasible for the demanded target"),
    });

    let mut abi_constraints: Vec<AbiConstraintFacts> = Vec::new();
    let mut a: usize = 0;
    while a < ffi_requirements.len()
        invariant
            a <= ffi_requirements@.len(),
            abi_constraints@.len() == a,
            forall|i: int| 0 <= i < a ==> abi_constraint_for(ffi_requirements@[i], #[trigger] abi_constraints@[i], target_triple@),
        decreases ffi_requirements@.len() - a,
    {
        let req = &ffi_requirements[a];
        let ghost prev = abi_constraints@;
        abi_constraints.push(AbiConstraintFacts {
            boundary_symbol: req.symbol.clone(),
            abi: req.abi.clone(),
            target_triple: owned(target_triple),
        });
        proof {
            assert forall|i: int| 0 <= i < a + 1 implies abi_constraint_for(ffi_requirements@[i], #[trigger] abi_constraints@[i], target_triple@) by {
                if i < a {
                    assert(abi_constraints@[i] == prev[i]);
                }
            }
        }
        a = a + 1;
    }

    let mut declared_outputs: Vec<ArtifactOutputFacts> = Vec::new();
    declared_outputs.push(output(labelled("object:", pkg), pkg, ArtifactOutputKind::RustObject));
    declared_outputs.push(output(labelled("archive:", nim_pkg), nim_pkg, ArtifactOutputKind::NimStaticLibrary));
    declared_outputs.push(output(owned("object:cadd"), "cadd", ArtifactOutputKind::CObject));
    declared_outputs.push(output(owned("archive:cadd"), "cadd", ArtifactOutputKind::CStaticArchive));
    declared_outputs.push(output(owned("object:cppmax"), "cppmax", ArtifactOutputKind::CppAdapterObject));
    declared_outputs.push(output(owned("archive:cppmax"), "cppmax", ArtifactOutputKind::CppStaticArchive));
    declared_outputs.push(output(labelled("executable:", pkg), pkg, ArtifactOutputKind::NativeExecutable));

    let mut description = owned("OS ABI/dynamic loader contract for target '");
    push_str(&mut description, target_triple);
    push_str(&mut description, "' is not bundled");
    let mut runtime_requirements: Vec<RuntimeRequirementFacts> = Vec::new();
    runtime_requirements.push(RuntimeRequirementFacts { target_triple: owned(target_triple), description });

    DependencyResolutionInput {
        demand_entry_point: owned(pkg),
        target_triple: owned(target_triple),
        host_toolchain_id: owned("nim"),
        sources,
        package_candidates,
        ffi_requirements,
        lowering_requirements,
        abi_constraints,
        declared_outputs,
        runtime_requirements,
    }
}

} // verus!
