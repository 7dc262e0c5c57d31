use crate::configuration::{build_type_name, CMakeBuildType};
use crate::package::CMAKE_MIN_VERSION;
use crate::target::texts;
use crate::version::{parse_version, version_string, Version};
use vstd::prelude::*;

verus! {

/// What to look for: a package by name, at least a version, with components. Built by
/// `find_package`; app code runs the search.
#[derive(Debug, Clone)]
pub struct FindPackageBuilder {
    pub name: String,
    pub version: Option<Version>,
    pub components: Option<Vec<String>>,
    pub verbose: bool,
}

impl FindPackageBuilder {
    fn new(name: String) -> (r: Self)
        ensures
            r.name == name,
            r.version is None,
            r.components is None,
            !r.verbose,
    {
        FindPackageBuilder { name, version: None, components: None, verbose: false }
    }

    /// Asks for at least `version`, which must be a valid version string.
    pub fn version(self, version: &str) -> (r: Self)
        requires
            parse_version(version@) is Ok,
        ensures
            r.version == Some(parse_version(version@)->Ok_0),
            r.name == self.name,
            r.components == self.components,
            r.verbose == self.verbose,
    {
        let v = match Version::parse(version) {
            Ok(v) => v,
            Err(_) => Version { major: 0, minor: 0, patch: 0 },
        };
        FindPackageBuilder { version: Some(v), ..self }
    }

    /// Asks for the package's `components`.
    pub fn components(self, components: Vec<String>) -> (r: Self)
        ensures
            r.components == Some(components),
            r.name == self.name,
            r.version == self.version,
            r.verbose == self.verbose,
    {
        FindPackageBuilder { components: Some(components), ..self }
    }

    /// Shows CMake's own output while searching.
    pub fn verbose(self) -> (r: Self)
        ensures
            r.verbose,
            r.name == self.name,
            r.version == self.version,
            r.components == self.components,
    {
        FindPackageBuilder { verbose: true, ..self }
    }
}

/// Starts the description of a package to find, by its CMake name.
pub fn find_package(name: &str) -> (r: FindPackageBuilder)
    ensures
        r.name@ == name@,
        r.version is None,
        r.components is None,
        !r.verbose,
{
    FindPackageBuilder::new(String::from_str(name))
}

/// The items of `items` with `sep` between each two.
pub open spec fn joined(items: Seq<Seq<char>>, sep: char) -> Seq<char>
    decreases items.len(),
{
    if items.len() == 0 {
        Seq::empty()
    } else if items.len() == 1 {
        items[0]
    } else {
        joined(items.drop_last(), sep) + seq![sep] + items.last()
    }
}

/// Joins `items` with `;`, CMake's list separator.
pub fn join_list(items: &Vec<String>) -> (r: String)
    ensures
        r@ == joined(texts(items@), ';'),
{
    let mut r = String::new();
    let mut i: usize = 0;
    proof {
        assert(texts(items@.take(0)) =~= Seq::<Seq<char>>::empty());
    }
    while i < items.len()
        invariant
            i <= items.len(),
            r@ == joined(texts(items@.take(i as int)), ';'),
        decreases items.len() - i,
    {
        let ghost before = texts(items@.take(i as int));
        let ghost after = texts(items@.take(i + 1));
        assert(after.drop_last() =~= before);
        if i > 0 {
            r.append(";");
            proof {
                reveal_strlit(";");
                assert(";"@ =~= seq![';']);
            }
        } else {
            assert(after =~= seq![items@[0]@]);
        }
        r.append(items[i].as_str());
        i = i + 1;
        assert(r@ =~= joined(after, ';'));
    }
    assert(items@.take(items.len() as int) =~= items@);
    r
}

pub open spec fn opt_line(prefix: Seq<char>, value: Option<Seq<char>>) -> Seq<Seq<char>> {
    match value {
        Some(v) => seq![prefix + v],
        None => Seq::empty(),
    }
}

/// The arguments of a CMake run that queries `package`, or one of its targets, and writes
/// the answer to `output_file`.
pub open spec fn configure_args(
    build_type: CMakeBuildType,
    package: Seq<char>,
    target: Option<Seq<char>>,
    output_file: Seq<char>,
    version: Option<Version>,
    components: Option<Seq<Seq<char>>>,
) -> Seq<Seq<char>> {
    seq![
        seq!['.'],
        "-DCMAKE_BUILD_TYPE="@ + build_type_name(build_type),
        "-DCMAKE_MIN_VERSION="@ + CMAKE_MIN_VERSION@,
        "-DPACKAGE="@ + package,
    ] + opt_line("-DTARGET="@, target) + seq!["-DOUTPUT_FILE="@ + output_file] + opt_line(
        "-DVERSION="@,
        match version {
            Some(v) => Some(version_string(v)),
            None => None,
        },
    ) + opt_line(
        "-DCOMPONENTS="@,
        match components {
            Some(c) => Some(joined(c, ';')),
            None => None,
        },
    )
}

fn text_with(prefix: &str, value: &str) -> (r: String)
    ensures
        r@ == prefix@ + value@,
{
    let mut r = String::from_str(prefix);
    r.append(value);
    r
}

/// The arguments of a CMake run in the query directory: the build configuration, the oldest
/// CMake supported, the package, the target if one is asked about, the file to write the
/// answer to, and the version and components asked for, if any.
pub fn configure_arguments(
    build_type: CMakeBuildType,
    package: &str,
    target: Option<&str>,
    output_file: &str,
    version: Option<Version>,
    components: Option<&Vec<String>>,
) -> (r: Vec<String>)
    ensures
        texts(r@) == configure_args(
            build_type,
            package@,
            match target {
                Some(t) => Some(t@),
                None => None,
            },
            output_file@,
            version,
            match components {
                Some(c) => Some(texts(c@)),
                None => None,
            },
        ),
{
    proof {
        reveal_strlit(".");
    }
    let mut r: Vec<String> = Vec::new();
    r.push(String::from_str("."));
    r.push(text_with("-DCMAKE_BUILD_TYPE=", build_type.name()));
    r.push(text_with("-DCMAKE_MIN_VERSION=", CMAKE_MIN_VERSION));
    r.push(text_with("-DPACKAGE=", package));
    let ghost head = texts(r@);
    if let Some(t) = target {
        r.push(text_with("-DTARGET=", t));
    }
    let ghost with_target = texts(r@);
    r.push(text_with("-DOUTPUT_FILE=", output_file));
    let ghost with_output = texts(r@);
    if let Some(v) = version {
        r.push(text_with("-DVERSION=", v.to_string().as_str()));
    }
    let ghost with_version = texts(r@);
    if let Some(c) = components {
        r.push(text_with("-DCOMPONENTS=", join_list(c).as_str()));
    }
    proof {
        assert("."@ =~= seq!['.']);
        let tgt = match target {
            Some(t) => Some(t@),
            None => None::<Seq<char>>,
        };
        assert(with_target =~= head + opt_line("-DTARGET="@, tgt));
    }
    assert(texts(r@) =~= configure_args(
        build_type,
        package@,
        match target {
            Some(t) => Some(t@),
            None => None,
        },
        output_file@,
        version,
        match components {
            Some(c) => Some(texts(c@)),
            None => None,
        },
    ));
    r
}

/// `s` in lower case.
pub uninterp spec fn lowercase(s: Seq<char>) -> Seq<char>;

/// Relies on `str::to_lowercase`, whose result depends on `s` alone.
#[verifier::external_body]
fn to_lowercase(s: &str) -> (r: String)
    ensures
        r@ == lowercase(s@),
{
    s.to_lowercase()
}

pub open spec fn colons_replaced(s: Seq<char>) -> Seq<char> {
    s.map_values(|c: char| if c == ':' { '_' } else { c })
}

/// The name of the file that the query about a target writes, given the target's name in
/// lower case: the name with `:` made `_`, as in `target_openssl__ssl.json`.
pub open spec fn target_file_name(lowercase_target: Seq<char>) -> Seq<char> {
    "target_"@ + colons_replaced(lowercase_target) + ".json"@
}

/// The name of the file for the query about a target, given its name in lower case.
pub fn target_file_for_lowercase(lowercase_target: &str) -> (r: String)
    ensures
        r@ == target_file_name(lowercase_target@),
{
    let mut r = String::from_str("target_");
    let n = lowercase_target.unicode_len();
    let mut i: usize = 0;
    while i < n
        invariant
            i <= n,
            n == lowercase_target@.len(),
            r@ == "target_"@ + colons_replaced(lowercase_target@.take(i as int)),
        decreases n - i,
    {
        let c = lowercase_target.get_char(i);
        if c == ':' {
            r.append("_");
        } else {
            r.append(lowercase_target.substring_char(i, i + 1));
        }
        proof {
            reveal_strlit("_");
            assert("_"@ =~= seq!['_']);
            assert(lowercase_target@.take(i + 1) =~= lowercase_target@.take(i as int).push(c));
            assert(colons_replaced(lowercase_target@.take(i + 1)) =~= colons_replaced(
                lowercase_target@.take(i as int),
            ).push(if c == ':' { '_' } else { c }));
        }
        i = i + 1;
        assert(r@ =~= "target_"@ + colons_replaced(lowercase_target@.take(i as int)));
    }
    r.append(".json");
    assert(lowercase_target@.take(n as int) =~= lowercase_target@);
    r
}

/// The name of the file that the query about `target` writes.
pub fn target_output_file(target: &str) -> (r: String)
    ensures
        r@ == target_file_name(lowercase(target@)),
{
    target_file_for_lowercase(to_lowercase(target).as_str())
}

} // verus!
