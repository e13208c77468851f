//! What the program's build puts into its binary: where to look for the Swift
//! runtime, and the property list that gives the binary an identity.

use vstd::prelude::*;

use crate::text::{replace, replaced, texts, trim, trimmed};

verus! {

/// The directories of the Swift runtime inside a toolchain.
pub const SWIFT_LIB_DIRS: [&'static str; 2] = ["swift-5.5/macosx", "swift/macosx"];

/// What stands in a property list template for the version.
pub const VERSION_MARK: &'static str = "__VERSION__";

/// Where the runtime lies below the developer directory that a tool printed.
pub open spec fn swift_lib_path(printed: Seq<char>, dir: Seq<char>) -> Seq<char> {
    trimmed(printed) + "/Toolchains/XcodeDefault.xctoolchain/usr/lib/"@ + dir
}

/// The directories to look for the Swift runtime in, given what was printed as
/// the developer directory.
pub fn swift_lib_paths(printed: &str) -> (paths: Vec<String>)
    ensures
        texts(paths@) == seq![
            swift_lib_path(printed@, "swift-5.5/macosx"@),
            swift_lib_path(printed@, "swift/macosx"@),
        ],
{
    let mut paths: Vec<String> = Vec::new();
    let mut i: usize = 0;
    while i < SWIFT_LIB_DIRS.len()
        invariant
            i <= SWIFT_LIB_DIRS@.len(),
            paths@.len() == i,
            forall|j: int|
                0 <= j < i ==> (#[trigger] paths@[j])@ == swift_lib_path(
                    printed@,
                    SWIFT_LIB_DIRS@[j]@,
                ),
        decreases SWIFT_LIB_DIRS@.len() - i,
    {
        let mut path = trim(printed);
        path.append("/Toolchains/XcodeDefault.xctoolchain/usr/lib/");
        path.append(SWIFT_LIB_DIRS[i]);
        paths.push(path);
        i += 1;
    }
    assert(texts(paths@) =~= seq![
        swift_lib_path(printed@, "swift-5.5/macosx"@),
        swift_lib_path(printed@, "swift/macosx"@),
    ]);
    paths
}

/// The property list for a version: the template with every mark replaced.
pub fn rendered_plist(template: &str, version: &str) -> (plist: String)
    ensures
        plist@ == replaced(template@, VERSION_MARK@, version@),
{
    proof {
        reveal_strlit("__VERSION__");
    }
    replace(template, VERSION_MARK, version)
}

// ---- laws -------------------------------------------------------------------

/// The runtime is looked for in two places below the developer directory, the one
/// for older systems first. Blanks round what was printed do not count.
pub proof fn the_runtime_lies_in_the_toolchain(dir: Seq<char>, printed: &str, paths: Vec<String>)
    requires
        call_ensures(swift_lib_paths, (printed,), paths),
        dir == trimmed(printed@),
    ensures
        paths@.len() == 2,
        paths@[0]@ == dir + "/Toolchains/XcodeDefault.xctoolchain/usr/lib/"@
            + "swift-5.5/macosx"@,
        paths@[1]@ == dir + "/Toolchains/XcodeDefault.xctoolchain/usr/lib/"@ + "swift/macosx"@,
{
    assert(texts(paths@).len() == paths@.len());
    assert(texts(paths@)[0] == paths@[0]@);
    assert(texts(paths@)[1] == paths@[1]@);
}

/// A property list is its template with the version in each place of the mark.
pub proof fn the_version_replaces_its_mark(template: &str, version: &str, plist: String)
    requires
        call_ensures(rendered_plist, (template, version), plist),
    ensures
        plist@ == replaced(template@, "__VERSION__"@, version@),
{
}

} // verus!
