//! Package ecosystems and how manifests are recognised.

use vstd::prelude::*;
use crate::text::{chars_of, push_char, str_eq};

verus! {

/// Package ecosystem type: which package manager and manifest format a
/// document belongs to.
#[derive(Debug, Clone, Copy, PartialEq, Eq, Structural)]
pub enum Ecosystem {
    /// Rust Cargo ecosystem (Cargo.toml)
    Cargo,
    /// JavaScript/TypeScript npm ecosystem (package.json)
    Npm,
    /// Python PyPI ecosystem (pyproject.toml)
    Pypi,
    /// Go modules ecosystem (go.mod)
    Go,
}

/// The ecosystem whose manifest file is called `filename`.
pub open spec fn ecosystem_of_filename(filename: Seq<char>) -> Option<Ecosystem> {
    if filename == "Cargo.toml"@ {
        Some(Ecosystem::Cargo)
    } else if filename == "package.json"@ {
        Some(Ecosystem::Npm)
    } else if filename == "pyproject.toml"@ {
        Some(Ecosystem::Pypi)
    } else if filename == "go.mod"@ {
        Some(Ecosystem::Go)
    } else {
        None
    }
}

/// The part of a `/`-separated path after its last `/` (all of it when it
/// has none).
pub open spec fn last_segment(path: Seq<char>) -> Seq<char>
    decreases path.len(),
{
    if path.len() == 0 {
        path
    } else if path.last() == '/' {
        seq![]
    } else {
        last_segment(path.drop_last()).push(path.last())
    }
}

/// The identifier of an ecosystem (`"cargo"`, `"npm"`, `"pypi"`, `"go"`).
pub open spec fn spec_ecosystem_id(e: Ecosystem) -> Seq<char> {
    match e {
        Ecosystem::Cargo => "cargo"@,
        Ecosystem::Npm => "npm"@,
        Ecosystem::Pypi => "pypi"@,
        Ecosystem::Go => "go"@,
    }
}

/// The ecosystem named by an identifier; an unknown identifier falls back to
/// Cargo.
pub open spec fn ecosystem_of_id(id: Seq<char>) -> Ecosystem {
    if id == "cargo"@ {
        Ecosystem::Cargo
    } else if id == "npm"@ {
        Ecosystem::Npm
    } else if id == "pypi"@ {
        Ecosystem::Pypi
    } else if id == "go"@ {
        Ecosystem::Go
    } else {
        Ecosystem::Cargo
    }
}

impl Ecosystem {
    /// Detects the ecosystem from a manifest file name (case-sensitive).
    pub fn from_filename(filename: &str) -> (r: Option<Ecosystem>)
        ensures
            r == ecosystem_of_filename(filename@),
    {
        if str_eq(filename, "Cargo.toml") {
            Some(Ecosystem::Cargo)
        } else if str_eq(filename, "package.json") {
            Some(Ecosystem::Npm)
        } else if str_eq(filename, "pyproject.toml") {
            Some(Ecosystem::Pypi)
        } else if str_eq(filename, "go.mod") {
            Some(Ecosystem::Go)
        } else {
            None
        }
    }

    /// Detects the ecosystem from the path of a document URI: its last
    /// `/`-separated segment names the manifest.
    pub fn from_uri(uri_path: &str) -> (r: Option<Ecosystem>)
        ensures
            r == ecosystem_of_filename(last_segment(uri_path@)),
    {
        let s = chars_of(uri_path);
        let mut i = s.len();
        assert(s@.take(i as int) =~= s@);
        assert(last_segment(s@.take(i as int)) + s@.subrange(i as int, s@.len() as int)
            =~= last_segment(s@));
        while i > 0 && s[i - 1] != '/'
            invariant
                i <= s@.len(),
                last_segment(s@) == last_segment(s@.take(i as int)) + s@.subrange(
                    i as int,
                    s@.len() as int,
                ),
            decreases i,
        {
            assert(s@.take(i as int).drop_last() =~= s@.take(i - 1));
            assert(last_segment(s@.take(i as int)) == last_segment(s@.take(i - 1)).push(s@[i - 1]));
            assert(s@.subrange(i - 1, s@.len() as int) =~= seq![s@[i - 1]] + s@.subrange(
                i as int,
                s@.len() as int,
            ));
            assert(last_segment(s@.take(i - 1)).push(s@[i - 1]) + s@.subrange(
                i as int,
                s@.len() as int,
            ) =~= last_segment(s@.take(i - 1)) + s@.subrange(i - 1, s@.len() as int));
            i = i - 1;
        }
        let mut name = String::new();
        let mut j = i;
        while j < s.len()
            invariant
                i <= j <= s@.len(),
                name@ == s@.subrange(i as int, j as int),
            decreases s@.len() - j,
        {
            push_char(&mut name, s[j]);
            assert(s@.subrange(i as int, j + 1) =~= s@.subrange(i as int, j as int).push(s@[j as int]));
            j = j + 1;
        }
        proof {
            assert(s@ =~= uri_path@);
            if i > 0 {
                assert(s@.take(i as int).last() == '/');
                assert(last_segment(s@.take(i as int)) == Seq::<char>::empty());
            } else {
                assert(s@.take(0) =~= Seq::<char>::empty());
            }
            assert(last_segment(s@) =~= name@);
        }
        Self::from_filename(name.as_str())
    }

    /// The ecosystem's identifier.
    pub fn id(&self) -> (r: &'static str)
        ensures
            r@ == spec_ecosystem_id(*self),
    {
        match self {
            Ecosystem::Cargo => "cargo",
            Ecosystem::Npm => "npm",
            Ecosystem::Pypi => "pypi",
            Ecosystem::Go => "go",
        }
    }

    /// The ecosystem named by `id`, falling back to Cargo for an unknown
    /// identifier.
    pub fn from_id(id: &str) -> (r: Ecosystem)
        ensures
            r == ecosystem_of_id(id@),
    {
        if str_eq(id, "cargo") {
            Ecosystem::Cargo
        } else if str_eq(id, "npm") {
            Ecosystem::Npm
        } else if str_eq(id, "pypi") {
            Ecosystem::Pypi
        } else if str_eq(id, "go") {
            Ecosystem::Go
        } else {
            Ecosystem::Cargo
        }
    }
}

/// An ecosystem's identifier names it: reading it back gives the ecosystem.
pub proof fn law_ecosystem_id_round_trip(e: Ecosystem)
    ensures
        ecosystem_of_id(spec_ecosystem_id(e)) == e,
{
    reveal_strlit("cargo");
    reveal_strlit("npm");
    reveal_strlit("pypi");
    reveal_strlit("go");
    assert("cargo"@.len() == 5 && "npm"@.len() == 3 && "pypi"@.len() == 4 && "go"@.len() == 2);
}

} // verus!
