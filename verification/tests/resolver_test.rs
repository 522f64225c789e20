use pexrc::resolver::{MetadataDirs, ResolvedWheel};
use pexrc::markers::MarkerFields;
use pexrc::platform_details::parse;
use pexrc::resolver::{
    by_file_name, compatible_wheels, rank_wheels, resolve_wheels, ResolveWheelsError, WheelFiles, decide_applies, decide_contains, default_roots, group_by_project, inputs_fit, requirement_from_text, resolve, wheel_rank, Decisions, ProjectWheels, Requirement,
    ResolveError, VersionConstraint, WheelInfo,
};

fn req(name: &str, extras: &[&str], version: VersionConstraint) -> Requirement {
    Requirement {
        name: name.to_string(),
        extras: extras.iter().map(|e| e.to_string()).collect(),
        version,
    }
}

fn wheel(file_name: &str, name: &str, deps: &[usize]) -> WheelInfo {
    WheelInfo {
        file_name: file_name.to_string(),
        normalized_name: Some(name.to_string()),
        requires_dists: deps.to_vec(),
    }
}

fn project(name: &str, wheels: Vec<WheelInfo>) -> ProjectWheels {
    ProjectWheels { name: name.to_string(), wheels }
}

/// Decisions where every marker applies, every version is admitted, nothing
/// is excluded and nothing is overridden.
fn permissive(reqs: usize, wheels_per_project: &[usize]) -> Decisions {
    Decisions {
        applies: vec![vec![true; reqs + 1]; reqs],
        contains: (0..reqs).map(|_| wheels_per_project.iter().map(|n| vec![true; *n]).collect()).collect(),
        excluded: vec![false; reqs],
        overridden: vec![vec![None; reqs + 1]; reqs],
    }
}

#[test]
fn test_resolve_follows_dependencies() {
    // 0: app, 1: lib (required by app's wheel).
    let reqs = vec![req("app", &[], VersionConstraint::Any), req("lib", &[], VersionConstraint::Any)];
    let projects = vec![
        project("app", vec![wheel("app-1.0-py3-none-any.whl", "app", &[1])]),
        project("lib", vec![wheel("lib-2.0-py3-none-any.whl", "lib", &[])]),
    ];
    let d = permissive(2, &[1, 1]);
    let res = resolve(&projects, &reqs, &d, &vec![0], false);
    assert_eq!(res, Ok(vec![(0, 0, 0), (1, 1, 0)]));
}

#[test]
fn test_resolve_takes_first_admitted_wheel() {
    let reqs = vec![req("lib", &[], VersionConstraint::Specifiers)];
    let projects = vec![project(
        "lib",
        vec![
            wheel("lib-3.0-py3-none-any.whl", "lib", &[]),
            wheel("lib-2.0-py3-none-any.whl", "lib", &[]),
            wheel("lib-1.0-py3-none-any.whl", "lib", &[]),
        ],
    )];
    let mut d = permissive(1, &[3]);
    d.contains[0][0] = vec![false, true, true];
    assert_eq!(resolve(&projects, &reqs, &d, &vec![0], false), Ok(vec![(0, 0, 1)]));
}

#[test]
fn test_resolve_inapplicable_lists_every_wheel() {
    let reqs = vec![req("lib", &[], VersionConstraint::Specifiers)];
    let projects = vec![project(
        "lib",
        vec![wheel("lib-3.0-py3-none-any.whl", "lib", &[]), wheel("lib-2.0-py3-none-any.whl", "lib", &[])],
    )];
    let mut d = permissive(1, &[2]);
    d.contains[0][0] = vec![false, false];
    assert_eq!(resolve(&projects, &reqs, &d, &vec![0], false), Err(ResolveError::Inapplicable(0, vec![0, 1])));
}

#[test]
fn test_resolve_url_requirement_fails() {
    let reqs = vec![req("lib", &[], VersionConstraint::Url)];
    let projects = vec![project("lib", vec![wheel("lib-1.0-py3-none-any.whl", "lib", &[])])];
    let d = permissive(1, &[1]);
    assert_eq!(resolve(&projects, &reqs, &d, &vec![0], false), Err(ResolveError::UrlNotSupported(0)));
}

#[test]
fn test_resolve_missing_project() {
    let reqs = vec![req("lib", &[], VersionConstraint::Any)];
    // A wheel whose written name normalises to `lib`, grouped under another
    // project name.
    let projects = vec![project(
        "other",
        vec![
            wheel("other-1.0-py3-none-any.whl", "other", &[]),
            wheel("Lib-1.0-py3-none-any.whl", "lib", &[]),
        ],
    )];
    let d = permissive(1, &[2]);
    assert_eq!(resolve(&projects, &reqs, &d, &vec![0], false), Err(ResolveError::NoWheels(0, vec![(0, 1)])));
    assert_eq!(resolve(&projects, &reqs, &d, &vec![0], true), Ok(vec![]));
}

#[test]
fn test_resolve_skips_marker_and_satisfied() {
    // 0: lib, 1: lib[extra] (its marker does not apply), 2: lib again.
    let reqs = vec![
        req("lib", &[], VersionConstraint::Any),
        req("lib", &["extra"], VersionConstraint::Any),
        req("lib", &[], VersionConstraint::Any),
    ];
    let projects = vec![project("lib", vec![wheel("lib-1.0-py3-none-any.whl", "lib", &[])])];
    let mut d = permissive(3, &[1]);
    d.applies[1] = vec![false; 4];
    assert_eq!(resolve(&projects, &reqs, &d, &vec![0, 1, 2], false), Ok(vec![(0, 0, 0)]));
}

#[test]
fn test_resolve_extras_are_a_new_requirement() {
    // lib[extra] is not satisfied by lib, so it resolves again, and its
    // wheel's requirement (dep) is queued with its extras.
    let reqs = vec![
        req("lib", &[], VersionConstraint::Any),
        req("lib", &["extra"], VersionConstraint::Any),
        req("dep", &[], VersionConstraint::Any),
    ];
    let projects = vec![
        project("lib", vec![wheel("lib-1.0-py3-none-any.whl", "lib", &[2])]),
        project("dep", vec![wheel("dep-1.0-py3-none-any.whl", "dep", &[])]),
    ];
    let mut d = permissive(3, &[1, 1]);
    // dep applies only with the extras of requirement 1 (source 2).
    d.applies[2] = vec![false, false, true, false];
    assert_eq!(resolve(&projects, &reqs, &d, &vec![0, 1], false), Ok(vec![(0, 0, 0), (1, 0, 0), (2, 1, 0)]));
}

#[test]
fn test_resolve_excluded_and_overridden() {
    // 0: app, 1: lib (excluded), 2: dep, 3: dep's override.
    let reqs = vec![
        req("app", &[], VersionConstraint::Any),
        req("lib", &[], VersionConstraint::Any),
        req("dep", &[], VersionConstraint::Any),
        req("dep", &[], VersionConstraint::Specifiers),
    ];
    let projects = vec![
        project("app", vec![wheel("app-1.0-py3-none-any.whl", "app", &[1, 2])]),
        project("lib", vec![wheel("lib-1.0-py3-none-any.whl", "lib", &[])]),
        project(
            "dep",
            vec![wheel("dep-2.0-py3-none-any.whl", "dep", &[]), wheel("dep-1.0-py3-none-any.whl", "dep", &[])],
        ),
    ];
    let mut d = permissive(4, &[1, 1, 2]);
    d.excluded[1] = true;
    d.overridden[2] = vec![Some(3); 5];
    d.contains[3][2] = vec![false, true];
    assert_eq!(resolve(&projects, &reqs, &d, &vec![0, 1], false), Ok(vec![(0, 0, 0), (3, 2, 1)]));
}

#[test]
fn test_wheel_rank() {
    let supported: Vec<String> = vec!["cp312-cp312-linux_x86_64", "cp312-abi3-linux_x86_64", "py3-none-any"]
        .into_iter()
        .map(String::from)
        .collect();
    let tags = vec!["py3-none-any".to_string(), "cp312-abi3-linux_x86_64".to_string()];
    assert_eq!(wheel_rank(&tags, &supported), Some(2));
    let tags = vec!["cp311-cp311-linux_x86_64".to_string()];
    assert_eq!(wheel_rank(&tags, &supported), None);
}

#[test]
fn test_group_by_project() {
    let names: Vec<String> = vec!["b", "a", "b", "b", "a"].into_iter().map(String::from).collect();
    let ranks = vec![5, 1, 2, 5, 0];
    let (groups, members) = group_by_project(&names, &ranks);
    assert_eq!(groups, vec!["b".to_string(), "a".to_string()]);
    assert_eq!(members, vec![vec![2, 0, 3], vec![4, 1]]);
}

#[test]
fn test_requirement_from_text() {
    let r = requirement_from_text("Foo_Bar[Baz]>=1.0").expect("a valid requirement");
    assert_eq!(r.name, "foo-bar");
    assert_eq!(r.extras, vec!["baz".to_string()]);
    assert_eq!(r.version, VersionConstraint::Specifiers);
    let r = requirement_from_text("foo").expect("a valid requirement");
    assert_eq!(r.version, VersionConstraint::Any);
    assert!(requirement_from_text("foo >=").is_none());
}

#[test]
fn test_decide_applies() {
    let details = parse("cpython-3.14.5-manylinux_2_28-x86_64", None, None, None).unwrap();
    let texts = vec![
        "app[x]; python_version >= '3.10'".to_string(),
        "dep; extra == 'x'".to_string(),
    ];
    let reqs: Vec<Requirement> = texts.iter().map(|t| requirement_from_text(t).unwrap()).collect();
    let applies = decide_applies(&texts, details.marker_fields(), &reqs).unwrap();
    assert_eq!(applies, vec![vec![true, true, true], vec![false, true, false]]);
    let bad = vec!["app >=".to_string(), "dep".to_string()];
    assert_eq!(decide_applies(&bad, details.marker_fields(), &reqs), None);
}

#[test]
fn test_decide_contains() {
    let texts = vec!["foo>=2".to_string(), "foo".to_string()];
    let versions = vec![vec!["3.0".to_string(), "1.0".to_string()], vec![]];
    assert_eq!(
        decide_contains(&texts, &versions),
        Some(vec![vec![vec![true, false], vec![]], vec![vec![true, true], vec![]]])
    );
    let versions = vec![vec!["not a version".to_string()]];
    assert_eq!(decide_contains(&texts, &versions), None);
}

#[test]
fn test_inputs_fit() {
    let reqs = vec![req("app", &[], VersionConstraint::Any), req("lib", &[], VersionConstraint::Any)];
    let projects = vec![
        project("app", vec![wheel("app-1.0-py3-none-any.whl", "app", &[1])]),
        project("lib", vec![wheel("lib-2.0-py3-none-any.whl", "lib", &[])]),
    ];
    let d = permissive(2, &[1, 1]);
    assert!(inputs_fit(&projects, &reqs, &d, &vec![0]));
    assert!(!inputs_fit(&projects, &reqs, &d, &vec![2]));
    let mut bad = permissive(2, &[1, 1]);
    bad.overridden[0][1] = Some(5);
    assert!(!inputs_fit(&projects, &reqs, &bad, &vec![0]));
    let short = permissive(2, &[1]);
    assert!(!inputs_fit(&projects, &reqs, &short, &vec![0]));
}

#[test]
fn test_default_roots() {
    let pinned_excluded = vec![vec![true, false, false], vec![true], vec![false], vec![]];
    assert_eq!(default_roots(&pinned_excluded), vec![(0, 1), (2, 0)]);
}

#[test]
fn test_decide_applies_with_marker_values() {
    let details = parse("cpython-3.14.5-macos", None, None, None).unwrap();
    let texts = vec!["a; sys_platform == 'darwin'".to_string(), "b; sys_platform == 'linux'".to_string()];
    let reqs: Vec<Requirement> = texts.iter().map(|t| requirement_from_text(t).unwrap()).collect();
    let applies = decide_applies(&texts, details.marker_fields(), &reqs).unwrap();
    assert_eq!(applies, vec![vec![true, true, true], vec![false, false, false]]);
    let f = details.marker_fields();
    let fields = MarkerFields {
        implementation_name: f.implementation_name.clone(),
        implementation_version: f.implementation_version.clone(),
        os_name: f.os_name.clone(),
        platform_machine: f.platform_machine.clone(),
        platform_python_implementation: f.platform_python_implementation.clone(),
        platform_release: f.platform_release.clone(),
        platform_system: f.platform_system.clone(),
        platform_version: f.platform_version.clone(),
        python_full_version: f.python_full_version.clone(),
        python_version: "not a version".to_string(),
        sys_platform: f.sys_platform.clone(),
    };
    assert_eq!(decide_applies(&texts, &fields, &reqs), None);
}

#[test]
fn test_compatible_wheels_filters_tags_and_requires_python() {
    let supported = vec!["cp312-cp312-linux_x86_64".to_string(), "py3-none-any".to_string()];
    let tags = vec![
        vec!["py3-none-any".to_string()],
        vec!["cp311-cp311-linux_x86_64".to_string()],
        vec!["py2-none-any".to_string(), "cp312-cp312-linux_x86_64".to_string()],
        vec!["py3-none-any".to_string()],
    ];
    let requires_python = vec![Some(">=3.8".to_string()), None, None, Some(">=3.13".to_string())];
    assert_eq!(
        compatible_wheels(&tags, &requires_python, &supported, "3.12.4"),
        Some(vec![(0, 1), (2, 0)])
    );
    let refused = vec![Some("not specifiers".to_string()), None, None, None];
    assert_eq!(compatible_wheels(&tags, &refused, &supported, "3.12.4"), None);
    let ignored = vec![None, Some("not specifiers".to_string()), None, None];
    assert_eq!(
        compatible_wheels(&tags, &ignored, &supported, "3.12.4"),
        Some(vec![(0, 1), (2, 0), (3, 1)])
    );
}

#[test]
fn test_by_file_name() {
    let projects = vec![
        project("app", vec![wheel("app-1.0-py3-none-any.whl", "app", &[1])]),
        project("lib", vec![wheel("lib-2.0-py3-none-any.whl", "lib", &[]), wheel("lib-1.0-py3-none-any.whl", "lib", &[])]),
    ];
    let keyed = by_file_name(&projects, &vec![(0, 0, 0), (1, 1, 1), (2, 0, 0)]);
    assert_eq!(
        keyed,
        vec![
            ("app-1.0-py3-none-any.whl".to_string(), 0, 0),
            ("lib-1.0-py3-none-any.whl".to_string(), 1, 1),
        ]
    );
}

#[test]
fn test_rank_wheels_groups_installable_wheels() {
    let supported = vec!["cp312-cp312-linux_x86_64".to_string(), "py3-none-any".to_string()];
    let names = vec!["lib".to_string(), "app".to_string(), "lib".to_string(), "lib".to_string()];
    let tags = vec![
        vec!["py3-none-any".to_string()],
        vec!["py3-none-any".to_string()],
        vec!["cp312-cp312-linux_x86_64".to_string()],
        vec!["py3-none-any".to_string()],
    ];
    let requires_python = vec![None, None, None, Some("<3".to_string())];
    let (compatible, projects, members) = rank_wheels(&names, &tags, &requires_python, &supported, "3.12.4").unwrap();
    assert_eq!(compatible, vec![(0, 1), (1, 1), (2, 0)]);
    assert_eq!(projects, vec!["lib".to_string(), "app".to_string()]);
    assert_eq!(members, vec![vec![2, 0], vec![1]]);
}

fn files() -> WheelFiles {
    WheelFiles {
        file_names: vec![
            "app-1.0-py3-none-any.whl".to_string(),
            "lib-2.0-py3-none-any.whl".to_string(),
            "lib-1.0-py3-none-any.whl".to_string(),
            "lib-1.0-cp39-cp39-win_amd64.whl".to_string(),
        ],
        names: vec!["app".to_string(), "lib".to_string(), "lib".to_string(), "lib".to_string()],
        versions: vec!["1.0".to_string(), "2.0".to_string(), "1.0".to_string(), "1.0".to_string()],
        tags: vec![
            vec!["py3-none-any".to_string()],
            vec!["py3-none-any".to_string()],
            vec!["py3-none-any".to_string()],
            vec!["cp39-cp39-win_amd64".to_string()],
        ],
        requires_python: vec![None, Some(">=3.13".to_string()), Some(">=3.8".to_string()), Some("bad".to_string())],
        requires_dists: vec![vec![1], vec![], vec![], vec![]],
    }
}

#[test]
fn test_resolve_wheels_filters_and_keys_by_file_name() {
    let target = parse("cpython-3.12.4-linux", None, None, None).unwrap();
    let texts = vec!["app".to_string(), "lib".to_string()];
    let reqs: Vec<Requirement> = texts.iter().map(|t| requirement_from_text(t).unwrap()).collect();
    let resolved = resolve_wheels(
        &files(),
        &reqs,
        &texts,
        &vec![0],
        vec![false, false],
        vec![vec![None; 3]; 2],
        &target,
        false,
    )
    .unwrap();
    assert_eq!(
        resolved,
        vec![("app-1.0-py3-none-any.whl".to_string(), 0), ("lib-1.0-py3-none-any.whl".to_string(), 2)]
    );
    let mut bad = files();
    bad.requires_python[0] = Some("not specifiers".to_string());
    assert_eq!(
        resolve_wheels(&bad, &reqs, &texts, &vec![0], vec![false, false], vec![vec![None; 3]; 2], &target, false),
        Err(ResolveWheelsError::InvalidRequiresPython)
    );
    let pinned = vec!["app".to_string(), "lib>=2".to_string()];
    let reqs: Vec<Requirement> = pinned.iter().map(|t| requirement_from_text(t).unwrap()).collect();
    assert_eq!(
        resolve_wheels(&files(), &reqs, &pinned, &vec![0], vec![false, false], vec![vec![None; 3]; 2], &target, false),
        Err(ResolveWheelsError::Resolve(ResolveError::Inapplicable(1, vec![0])))
    );
}

#[test]
fn test_resolve_wheels_picks_best_ranked_admitted_wheel() {
    let target = parse("cpython-3.12.4-manylinux_2_17-x86_64", None, None, None).unwrap();
    let files = WheelFiles {
        file_names: vec![
            "lib-1.0-py3-none-any.whl".to_string(),
            "lib-1.0-cp312-cp312-manylinux_2_17_x86_64.whl".to_string(),
            "lib-0.9-cp312-cp312-manylinux_2_17_x86_64.whl".to_string(),
        ],
        names: vec!["lib".to_string(), "lib".to_string(), "lib".to_string()],
        versions: vec!["1.0".to_string(), "1.0".to_string(), "0.9".to_string()],
        tags: vec![
            vec!["py3-none-any".to_string()],
            vec!["cp312-cp312-manylinux_2_17_x86_64".to_string()],
            vec!["cp312-cp312-manylinux_2_17_x86_64".to_string()],
        ],
        requires_python: vec![None, None, None],
        requires_dists: vec![vec![], vec![], vec![]],
    };
    let texts = vec!["lib".to_string()];
    let reqs: Vec<Requirement> = texts.iter().map(|t| requirement_from_text(t).unwrap()).collect();
    let resolved =
        resolve_wheels(&files, &reqs, &texts, &vec![0], vec![false], vec![vec![None; 2]], &target, false).unwrap();
    assert_eq!(resolved, vec![("lib-1.0-cp312-cp312-manylinux_2_17_x86_64.whl".to_string(), 1)]);
    let texts = vec!["lib<1".to_string()];
    let reqs: Vec<Requirement> = texts.iter().map(|t| requirement_from_text(t).unwrap()).collect();
    let resolved =
        resolve_wheels(&files, &reqs, &texts, &vec![0], vec![false], vec![vec![None; 2]], &target, false).unwrap();
    assert_eq!(resolved, vec![("lib-0.9-cp312-cp312-manylinux_2_17_x86_64.whl".to_string(), 2)]);
}

#[test]
fn test_resolved_wheel_dirs() {
    let w = ResolvedWheel {
        file_name: "six-1.16.0-py2.py3-none-any.whl".to_string(),
        project_name: "six".to_string(),
        version: "1.16.0".to_string(),
        root_is_purelib: true,
        metadata_dirs: MetadataDirs {
            data: "six-1.16.0.data".to_string(),
            dist_info: "six-1.16.0.dist-info".to_string(),
            pex_info: "six-1.16.0.pex-info".to_string(),
        },
    };
    assert_eq!(w.data_dir(), "six-1.16.0.data");
    assert_eq!(w.dist_info_dir(), "six-1.16.0.dist-info");
    assert_eq!(w.pex_info_dir(), "six-1.16.0.pex-info");
}
