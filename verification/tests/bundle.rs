use polarize_core::bundle::{rendered_plist, swift_lib_paths};

#[test]
fn the_runtime_lies_below_the_printed_directory() {
    assert_eq!(
        swift_lib_paths("/Applications/Xcode.app/Contents/Developer\n"),
        vec![
            "/Applications/Xcode.app/Contents/Developer/Toolchains/XcodeDefault.xctoolchain/usr/lib/swift-5.5/macosx",
            "/Applications/Xcode.app/Contents/Developer/Toolchains/XcodeDefault.xctoolchain/usr/lib/swift/macosx",
        ]
    );
}

#[test]
fn every_mark_becomes_the_version() {
    assert_eq!(
        rendered_plist("<a>__VERSION__</a><b>__VERSION__</b>", "1.2.3"),
        "<a>1.2.3</a><b>1.2.3</b>"
    );
    assert_eq!(rendered_plist("no mark", "1.2.3"), "no mark");
}
