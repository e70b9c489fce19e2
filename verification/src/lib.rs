//! Reads exported function declarations out of a declaration file and renders
//! them, and a package's manifest, as text.

use vstd::prelude::*;
use vstd::string::StringExecFns;

pub mod canon;
pub mod grammar;
pub mod parser;
pub mod render;
pub mod text;

verus! {

/// What a package's manifest says of the package.
#[derive(Debug, PartialEq, Eq)]
pub struct Package {
    pub name: String,
    pub version: String,
    pub license: Option<String>,
    pub description: Option<String>,
}

/// A `Package` as a mathematical value.
pub struct PackageView {
    pub name: Seq<char>,
    pub version: Seq<char>,
    pub license: Option<Seq<char>>,
    pub description: Option<Seq<char>>,
}

/// The text of `s`, where there is one.
pub open spec fn view_of_text(s: Option<String>) -> Option<Seq<char>> {
    match s {
        Some(text) => Some(text@),
        None => None,
    }
}

impl View for Package {
    type V = PackageView;

    open spec fn view(&self) -> PackageView {
        PackageView {
            name: self.name@,
            version: self.version@,
            license: view_of_text(self.license),
            description: view_of_text(self.description),
        }
    }
}

/// A package's manifest.
#[derive(Debug, PartialEq, Eq)]
pub struct CargoToml {
    pub package: Package,
}

impl View for CargoToml {
    type V = PackageView;

    open spec fn view(&self) -> PackageView {
        self.package@
    }
}

/// The summary of a package: a heading with its name, a smaller one with its
/// version, its description on a line of its own where it has one, and its
/// license under a heading where it has one.
pub open spec fn markdown(package: PackageView) -> Seq<char> {
    "# "@ + package.name + "\n"@ + "### Version: "@ + package.version + "\n"@ + (
    match package.description {
        Some(description) => description + "\n"@,
        None => Seq::empty(),
    }) + (match package.license {
        Some(license) => "## License\n"@ + license + "\n"@,
        None => Seq::empty(),
    })
}

/// Writes the summary of the package that `config` describes.
pub fn generate_markdown(config: &CargoToml) -> (r: String)
    ensures
        r@ == markdown(config@),
{
    let mut r = String::from_str("# ");
    r.append(config.package.name.as_str());
    r.append("\n");
    r.append("### Version: ");
    r.append(config.package.version.as_str());
    r.append("\n");
    let ghost head = r@;
    match &config.package.description {
        Some(description) => {
            r.append(description.as_str());
            r.append("\n");
            proof {
                assert(r@ =~= head + (description@ + "\n"@));
            }
        },
        None => {
            proof {
                assert(r@ =~= head + Seq::<char>::empty());
            }
        },
    }
    let ghost body = r@;
    match &config.package.license {
        Some(license) => {
            r.append("## License\n");
            r.append(license.as_str());
            r.append("\n");
            proof {
                assert(r@ =~= body + ("## License\n"@ + license@ + "\n"@));
            }
        },
        None => {
            proof {
                assert(r@ =~= body + Seq::<char>::empty());
            }
        },
    }
    r
}

} // verus!
