use cmake_package::target::{collect_from_targets, collect_from_targets_unique, location_for_build_type};
use cmake_package::{CMakeBuildType, CMakeTarget, InterfaceProperty, Platform, PropertyValue, Target};

fn strings(items: &[&str]) -> Vec<String> {
    items.iter().map(|s| s.to_string()).collect()
}

#[test]
fn from_target() {
    let target = Target {
        name: "my_target".to_string(),
        location: Some("/path/to/target.so".to_string()),
        interface_compile_definitions: Some(vec!["DEFINE1".to_string(), "DEFINE2".to_string()]),
        interface_compile_options: Some(vec!["-O2".to_string(), "-Wall".to_string()]),
        interface_include_directories: Some(vec!["/path/to/include".to_string()]),
        interface_link_directories: Some(vec!["/path/to/lib".to_string()]),
        interface_link_options: Some(vec!["-L/path/to/lib".to_string()]),
        interface_link_libraries: Some(vec![
            PropertyValue::String("library1".to_string()),
            PropertyValue::String("library2".to_string()),
            PropertyValue::Target(Target {
                name: "dependency".to_string(),
                location: Some("/path/to/dependency.so".to_string()),
                interface_compile_definitions: Some(vec!["DEFINE3".to_string()]),
                interface_compile_options: Some(vec!["-O3".to_string()]),
                interface_include_directories: Some(vec![
                    "/path/to/dependency/include".to_string()
                ]),
                interface_link_directories: Some(vec!["/path/to/dependency/lib".to_string()]),
                interface_link_options: Some(vec!["-L/path/to/dependency/lib".to_string()]),
                interface_link_libraries: Some(vec![PropertyValue::String(
                    "dependency_library".to_string(),
                )]),
                ..Default::default()
            }),
        ]),
        ..Default::default()
    };

    let cmake_target: CMakeTarget = target.into_cmake_target(CMakeBuildType::Release, Platform::Unix);

    assert_eq!(cmake_target.name, "my_target");
    assert_eq!(cmake_target.location, Some("/path/to/target.so".into()));
    assert_eq!(
        cmake_target.compile_definitions,
        vec!["DEFINE1", "DEFINE2", "DEFINE3"]
    );
    assert_eq!(cmake_target.compile_options, vec!["-O2", "-Wall", "-O3"]);
    assert_eq!(
        cmake_target.include_directories,
        vec!["/path/to/dependency/include", "/path/to/include"]
    );
    assert_eq!(
        cmake_target.link_directories,
        vec!["/path/to/dependency/lib", "/path/to/lib"]
    );
    assert_eq!(
        cmake_target.link_options,
        vec!["-L/path/to/lib", "-L/path/to/dependency/lib"]
    );
    assert_eq!(
        cmake_target.link_libraries,
        vec![
            "/path/to/dependency.so",
            "/path/to/target.so",
            "dependency_library",
            "library1",
            "library2",
        ]
    );
}

#[test]
fn from_debug_target() {
    let target = Target {
        name: "test_target".to_string(),
        location: Some("/path/to/target.so".to_string()),
        location_debug: Some("/path/to/target_debug.so".to_string()),
        ..Default::default()
    };

    let cmake_target = target.into_cmake_target(CMakeBuildType::Debug, Platform::Unix);
    assert_eq!(
        cmake_target.location,
        Some("/path/to/target_debug.so".to_string())
    );
}

fn options_graph() -> Target {
    Target {
        name: "R".to_string(),
        interface_compile_options: Some(strings(&["-O2", "-Wall"])),
        interface_link_libraries: Some(vec![PropertyValue::Target(Target {
            name: "D".to_string(),
            interface_compile_options: Some(strings(&["-O3"])),
            ..Default::default()
        })]),
        ..Default::default()
    }
}

#[test]
fn compile_options_keep_order_and_repetitions() {
    let r = options_graph().into_cmake_target(CMakeBuildType::Release, Platform::Unix);
    assert_eq!(r.compile_options, vec!["-O2", "-Wall", "-O3"]);

    let repeated = Target {
        interface_link_options: Some(strings(&["-z", "-a"])),
        interface_link_libraries: Some(vec![PropertyValue::Target(Target {
            interface_link_options: Some(strings(&["-a", "-z"])),
            ..Default::default()
        })]),
        ..Default::default()
    };
    let r = repeated.into_cmake_target(CMakeBuildType::Release, Platform::Unix);
    assert_eq!(r.link_options, vec!["-z", "-a", "-a", "-z"]);
}

#[test]
fn include_directories_sorted_and_unique() {
    let t = Target {
        name: "R".to_string(),
        interface_include_directories: Some(strings(&["/a"])),
        interface_link_libraries: Some(vec![PropertyValue::Target(Target {
            name: "D".to_string(),
            interface_include_directories: Some(strings(&["/a", "/b"])),
            ..Default::default()
        })]),
        ..Default::default()
    };
    let r = t.into_cmake_target(CMakeBuildType::Release, Platform::Unix);
    assert_eq!(r.include_directories, vec!["/a", "/b"]);
}

#[test]
fn location_override_per_configuration() {
    let make = || Target {
        location: Some("/x".to_string()),
        location_debug: Some("/x/dbg".to_string()),
        ..Default::default()
    };
    assert_eq!(make().into_cmake_target(CMakeBuildType::Debug, Platform::Unix).location, Some("/x/dbg".to_string()));
    assert_eq!(make().into_cmake_target(CMakeBuildType::Release, Platform::Unix).location, Some("/x".to_string()));
    assert_eq!(location_for_build_type(CMakeBuildType::MinSizeRel, &make(), Platform::Unix), Some("/x".to_string()));
    assert_eq!(location_for_build_type(CMakeBuildType::Debug, &Target::default(), Platform::Unix), None);
}

#[test]
fn import_libraries_on_windows() {
    let t = Target {
        location: Some("/x.dll".to_string()),
        location_release: Some("/x_rel.dll".to_string()),
        imported_implib: Some("x.lib".to_string()),
        imported_implib_relwithdebinfo: Some("x_rwdi.lib".to_string()),
        ..Default::default()
    };
    assert_eq!(location_for_build_type(CMakeBuildType::Release, &t, Platform::Windows), Some("x.lib".to_string()));
    assert_eq!(location_for_build_type(CMakeBuildType::RelWithDebInfo, &t, Platform::Windows), Some("x_rwdi.lib".to_string()));
    assert_eq!(location_for_build_type(CMakeBuildType::Release, &t, Platform::Unix), Some("/x_rel.dll".to_string()));
    let no_implib = Target { location: Some("/x.dll".to_string()), ..Default::default() };
    assert_eq!(location_for_build_type(CMakeBuildType::Debug, &no_implib, Platform::Windows), None);
}

fn link_graph(reversed: bool) -> Target {
    let mut entries = vec![
        PropertyValue::String("libfoo".to_string()),
        PropertyValue::Target(Target {
            name: "dep".to_string(),
            location: Some("/dep/libdep.so".to_string()),
            location_debug: Some("/dep/libdep_d.so".to_string()),
            interface_link_libraries: Some(vec![
                PropertyValue::String("libbar".to_string()),
                PropertyValue::String("libfoo".to_string()),
            ]),
            ..Default::default()
        }),
    ];
    if reversed {
        entries.reverse();
    }
    Target {
        name: "root".to_string(),
        location: Some("/root/libroot.so".to_string()),
        interface_link_libraries: Some(entries),
        ..Default::default()
    }
}

#[test]
fn link_libraries_composed_sorted_unique() {
    let expected = vec!["/dep/libdep.so", "/root/libroot.so", "libbar", "libfoo"];
    let r = link_graph(false).into_cmake_target(CMakeBuildType::Release, Platform::Unix);
    assert_eq!(r.link_libraries, expected);
    let r = link_graph(true).into_cmake_target(CMakeBuildType::Release, Platform::Unix);
    assert_eq!(r.link_libraries, expected);
    let r = link_graph(false).into_cmake_target(CMakeBuildType::Debug, Platform::Unix);
    assert_eq!(r.link_libraries, vec!["/dep/libdep_d.so", "/root/libroot.so", "libbar", "libfoo"]);
}

#[test]
fn resolving_twice_gives_the_same_result() {
    for c in [CMakeBuildType::Debug, CMakeBuildType::Release, CMakeBuildType::MinSizeRel] {
        let a = link_graph(false).into_cmake_target(c, Platform::Unix);
        let b = link_graph(false).into_cmake_target(c, Platform::Unix);
        assert_eq!(format!("{:?}", a), format!("{:?}", b));
        let a = options_graph().into_cmake_target(c, Platform::Unix);
        let b = options_graph().into_cmake_target(c, Platform::Unix);
        assert_eq!(format!("{:?}", a), format!("{:?}", b));
    }
}

#[test]
fn collection_is_depth_first() {
    let t = Target {
        interface_compile_definitions: Some(strings(&["R"])),
        interface_link_libraries: Some(vec![
            PropertyValue::Target(Target {
                interface_compile_definitions: Some(strings(&["A"])),
                interface_link_libraries: Some(vec![PropertyValue::Target(Target {
                    interface_compile_definitions: Some(strings(&["A1"])),
                    ..Default::default()
                })]),
                ..Default::default()
            }),
            PropertyValue::String("ignored".to_string()),
            PropertyValue::Target(Target {
                interface_compile_definitions: Some(strings(&["B", "R"])),
                ..Default::default()
            }),
        ]),
        ..Default::default()
    };
    assert_eq!(
        collect_from_targets(&t, InterfaceProperty::CompileDefinitions),
        vec!["R", "A", "A1", "B", "R"]
    );
    assert_eq!(
        collect_from_targets_unique(&t, InterfaceProperty::CompileDefinitions),
        vec!["A", "A1", "B", "R"]
    );
    assert!(collect_from_targets(&t, InterfaceProperty::LinkDirectories).is_empty());
}

#[test]
fn empty_target_resolves_to_nothing() {
    let r = Target::default().into_cmake_target(CMakeBuildType::Release, Platform::Unix);
    assert_eq!(r.name, "");
    assert_eq!(r.location, None);
    assert!(r.compile_definitions.is_empty());
    assert!(r.link_libraries.is_empty());
    assert!(r.link_options.is_empty());
}
