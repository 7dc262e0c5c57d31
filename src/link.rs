use crate::target::{texts, CMakeTarget, Platform};
use vstd::prelude::*;

verus! {

/// The library name in a shared object's path: for `/usr/lib/libfoo.so.5`, `foo`.
pub uninterp spec fn shared_object_name(lib: Seq<char>) -> Option<Seq<char>>;

/// Relies on `regex::Regex`: the first group of the leftmost match of `lib([^/]+)\.so.*`
/// in `lib`, which depends on `lib` alone.
#[verifier::external_body]
fn shared_object_link_name(lib: &str) -> (r: Option<&str>)
    ensures
        match r {
            Some(n) => shared_object_name(lib@) == Some(n@),
            None => shared_object_name(lib@) is None,
        },
{
    let regex = regex::Regex::new(r"lib([^/]+)\.so.*").ok()?;
    regex.captures(lib)?.get(1).map(|f| f.as_str())
}

/// The name under which the linker is asked for `lib`: on Windows the entry itself, elsewhere
/// the name in a shared object's path, if `lib` is one.
pub open spec fn link_name_of(lib: Seq<char>, platform: Platform) -> Option<Seq<char>> {
    match platform {
        Platform::Windows => Some(lib),
        Platform::Unix => shared_object_name(lib),
    }
}

pub open spec fn search_prefix() -> Seq<char> {
    "cargo:rustc-link-search=native="@
}

pub open spec fn arg_prefix() -> Seq<char> {
    "cargo:rustc-link-arg="@
}

pub open spec fn lib_prefix() -> Seq<char> {
    "cargo:rustc-link-lib=dylib="@
}

/// The cargo directive for library `lib`, whose link name is `name`: a library to link by
/// name if it has one, else the entry passed to the linker as it is.
pub open spec fn library_line(lib: Seq<char>, name: Option<Seq<char>>) -> Seq<char> {
    match name {
        Some(n) => lib_prefix() + n,
        None => arg_prefix() + lib,
    }
}

/// The cargo directives that link against `t`: a search path per link directory, a linker
/// argument per link option, then a line per link library.
pub open spec fn link_lines(t: CMakeTarget, platform: Platform) -> Seq<Seq<char>> {
    texts(t.link_directories@).map_values(|d: Seq<char>| search_prefix() + d) + texts(
        t.link_options@,
    ).map_values(|o: Seq<char>| arg_prefix() + o) + texts(t.link_libraries@).map_values(
        |l: Seq<char>| library_line(l, link_name_of(l, platform)),
    )
}

/// The link name of `lib` on `platform`.
pub fn link_name(lib: &str, platform: Platform) -> (r: Option<&str>)
    ensures
        match r {
            Some(n) => link_name_of(lib@, platform) == Some(n@),
            None => link_name_of(lib@, platform) is None,
        },
{
    match platform {
        Platform::Windows => Some(lib),
        Platform::Unix => shared_object_link_name(lib),
    }
}

fn prefixed(prefix: &str, s: &str) -> (r: String)
    ensures
        r@ == prefix@ + s@,
{
    let mut r = String::from_str(prefix);
    r.append(s);
    r
}

/// The cargo directive for library `lib` with link name `name`.
pub fn library_directive(lib: &str, name: Option<&str>) -> (r: String)
    ensures
        r@ == library_line(
            lib@,
            match name {
                Some(n) => Some(n@),
                None => None,
            },
        ),
{
    match name {
        Some(n) => prefixed("cargo:rustc-link-lib=dylib=", n),
        None => prefixed("cargo:rustc-link-arg=", lib),
    }
}

/// Appends `prefix` followed by each item of `items`, one line per item, to `out`.
fn push_prefixed(out: &mut Vec<String>, prefix: &str, items: &Vec<String>)
    ensures
        texts(final(out)@) == texts(old(out)@) + texts(items@).map_values(
            |s: Seq<char>| prefix@ + s,
        ),
{
    let mut i: usize = 0;
    while i < items.len()
        invariant
            i <= items.len(),
            texts(out@) == texts(old(out)@) + texts(items@.take(i as int)).map_values(
                |s: Seq<char>| prefix@ + s,
            ),
        decreases items.len() - i,
    {
        let ghost prev = out@;
        out.push(prefixed(prefix, items[i].as_str()));
        assert(texts(out@) =~= texts(prev).push(prefix@ + items@[i as int]@));
        assert(texts(items@.take(i + 1)).map_values(|s: Seq<char>| prefix@ + s) =~= texts(
            items@.take(i as int),
        ).map_values(|s: Seq<char>| prefix@ + s).push(prefix@ + items@[i as int]@));
        i = i + 1;
    }
    assert(items@.take(items.len() as int) =~= items@);
}

impl CMakeTarget {
    /// The cargo directives that link a crate against the target, one per line: a search path
    /// per link directory, a linker argument per link option, and for each link library
    /// either a library to link by name or, lacking a link name, a linker argument.
    pub fn link_directives(&self, platform: Platform) -> (r: Vec<String>)
        ensures
            texts(r@) == link_lines(*self, platform),
    {
        let mut r: Vec<String> = Vec::new();
        push_prefixed(&mut r, "cargo:rustc-link-search=native=", &self.link_directories);
        push_prefixed(&mut r, "cargo:rustc-link-arg=", &self.link_options);
        let ghost start = texts(r@);
        let libs = &self.link_libraries;
        let mut i: usize = 0;
        while i < libs.len()
            invariant
                i <= libs.len(),
                libs == self.link_libraries,
                texts(r@) == start + texts(libs@.take(i as int)).map_values(
                    |l: Seq<char>| library_line(l, link_name_of(l, platform)),
                ),
            decreases libs.len() - i,
        {
            let lib = libs[i].as_str();
            let ghost prev = r@;
            r.push(library_directive(lib, link_name(lib, platform)));
            assert(texts(r@) =~= texts(prev).push(
                library_line(lib@, link_name_of(lib@, platform)),
            ));
            assert(texts(libs@.take(i + 1)).map_values(
                |l: Seq<char>| library_line(l, link_name_of(l, platform)),
            ) =~= texts(libs@.take(i as int)).map_values(
                |l: Seq<char>| library_line(l, link_name_of(l, platform)),
            ).push(library_line(lib@, link_name_of(lib@, platform))));
            i = i + 1;
        }
        assert(libs@.take(libs.len() as int) =~= libs@);
        assert(texts(r@) =~= link_lines(*self, platform));
        r
    }
}

} // verus!
