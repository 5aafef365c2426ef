//! The errors of composing a bundle.

use vstd::prelude::*;

verus! {

/// Why a bundle could not be composed.
#[derive(Debug)]
pub enum ComposeError {
    /// No `oci:FleetImage` is left that another entity does not inherit.
    NoRootFleet,
    /// The output mode is none of `dockerfile`, `manifest` and `auto`.
    UnknownMode(String),
    /// `composition.ttl` could not be produced.
    Rdf(RdfError),
}

/// Why a composition directory could not be loaded.
#[derive(Debug)]
pub enum LoadError {
    /// A file under `kernels/` is not named `kernel.yaml` (its path under
    /// `kernels/`).
    MisnamedKernel(String),
    /// A file under `links/` is not named `<subject>.<PREDICATE>.<object>.yaml`
    /// after the link it holds (its file name).
    MisnamedLink(String),
}

/// Why the composition graph could not be serialised as RDF.
#[derive(Debug)]
pub enum RdfError {
    /// A subject, predicate or object is not a valid IRI.
    InvalidIri,
    /// The triple store refused an operation.
    Storage,
    /// The store could not be written out as Turtle.
    Serialization,
}

} // verus!

verus! {

pub open spec fn spec_rdf_message(e: RdfError) -> Seq<char> {
    match e {
        RdfError::InvalidIri => "named node"@,
        RdfError::Storage => "oxigraph store"@,
        RdfError::Serialization => "turtle dump"@,
    }
}

impl RdfError {
    /// What failed, in a few words.
    pub fn message(&self) -> (r: &'static str)
        ensures
            r@ == spec_rdf_message(*self),
    {
        match self {
            RdfError::InvalidIri => "named node",
            RdfError::Storage => "oxigraph store",
            RdfError::Serialization => "turtle dump",
        }
    }
}

impl ComposeError {
    /// The error as a sentence.
    pub fn message(&self) -> (r: String)
        ensures
            r@ == match self {
                ComposeError::NoRootFleet =>
                    "no root oci:FleetImage (a FleetImage not inherited by another) to compose"@,
                ComposeError::UnknownMode(m) => "unknown mode '"@ + m@
                    + "' (expected dockerfile | manifest | auto)"@,
                ComposeError::Rdf(e) => spec_rdf_message(*e),
            },
    {
        match self {
            ComposeError::NoRootFleet => String::from_str(
                "no root oci:FleetImage (a FleetImage not inherited by another) to compose",
            ),
            ComposeError::UnknownMode(m) => {
                let mut s = String::from_str("unknown mode '");
                s.append(m.as_str());
                s.append("' (expected dockerfile | manifest | auto)");
                s
            },
            ComposeError::Rdf(e) => String::from_str(e.message()),
        }
    }
}

} // verus!

verus! {

impl LoadError {
    /// The error as a sentence.
    pub fn message(&self) -> (r: String)
        ensures
            r@ == match self {
                LoadError::MisnamedKernel(p) => "kernels/"@ + p@
                    + ": a kernel file must be named kernel.yaml"@,
                LoadError::MisnamedLink(n) => "links/"@ + n@
                    + ": a link file must be named <subject>.<PREDICATE>.<object>.yaml"@,
            },
    {
        match self {
            LoadError::MisnamedKernel(p) => {
                let mut s = String::from_str("kernels/");
                s.append(p.as_str());
                s.append(": a kernel file must be named kernel.yaml");
                s
            },
            LoadError::MisnamedLink(n) => {
                let mut s = String::from_str("links/");
                s.append(n.as_str());
                s.append(": a link file must be named <subject>.<PREDICATE>.<object>.yaml");
                s
            },
        }
    }
}

} // verus!
