use latest_maven_version::version::{Identifier, Version};
use latest_maven_version::versions::{default_requirement, latest_among, Versions};
use semver::VersionReq;

fn pre(major: u64, minor: u64, patch: u64, tag: &str) -> Version {
    Version {
        major,
        minor,
        patch,
        pre: vec![Identifier::AlphaNumeric(tag.to_string())],
        build: vec![],
    }
}

fn req(text: &str) -> VersionReq {
    VersionReq::parse(text).unwrap()
}

fn gds_pool() -> Versions {
    Versions::from(
        [
            "0.9.2",
            "0.9.3",
            "1.0.0",
            "1.1.0-alpha01",
            "1.1.0-alpha02",
            "1.1.0",
            "1.1.1",
            "1.1.2",
            "1.1.3",
            "1.1.4",
            "1.2.0-alpha01",
            "1.2.0",
            "1.2.1",
            "1.2.2",
            "1.2.3",
            "1.3.0-alpha01",
            "1.3.0-alpha02",
            "1.3.0-alpha03",
            "1.3.0",
            "1.3.1",
            "1.4.0-alpha01",
            "1.4.0-alpha02",
        ]
        .as_ref(),
    )
}

#[test]
fn test_empty_reqs() {
    let versions = Versions::from("1.0.0");
    assert_eq!(versions.find_latest_versions(&[], false), vec![]);
}

#[test]
fn test_empty_versions() {
    let versions = Versions::from(Vec::<String>::new());
    assert_eq!(
        versions.find_latest_versions(&[VersionReq::any()], false),
        vec![None]
    );
}

#[test]
fn match_single_version() {
    let versions = Versions::from("1.0.0");
    assert_eq!(
        versions.find_latest_versions(&[VersionReq::any()], false),
        vec![Some(Version::new(1, 0, 0))]
    );
}

#[test]
fn select_latest() {
    let versions = Versions::from(["1.0.0", "1.3.37"].as_ref());
    assert_eq!(
        versions.find_latest_versions(&[VersionReq::any()], false),
        vec![Some(Version::new(1, 3, 37))]
    );
}

#[test]
fn lenient_version_parsing() {
    let versions = Versions::from(["1.0.0", "1.337"].as_ref());
    assert_eq!(
        versions.find_latest_versions(&[VersionReq::any()], false),
        vec![Some(Version::new(1, 337, 0))]
    );
}

#[test]
fn group_on_reqs() {
    let versions = Versions::from(["1.0.0", "1.2.3", "2.0.0", "2.1337.42"].as_ref());
    assert_eq!(
        versions.find_latest_versions(
            &[
                VersionReq::parse("1.x").unwrap(),
                VersionReq::parse("2.x").unwrap()
            ],
            false
        ),
        vec![Some(Version::new(1, 2, 3)), Some(Version::new(2, 1337, 42))]
    );
}

#[test]
fn skip_unmatched_reqs() {
    let versions = Versions::from(["1.0.0", "2.0.0"].as_ref());
    assert_eq!(
        versions.find_latest_versions(
            &[
                VersionReq::parse("1.x").unwrap(),
                VersionReq::parse("42.x").unwrap(),
                VersionReq::parse("2.x").unwrap()
            ],
            false
        ),
        vec![
            Some(Version::new(1, 0, 0)),
            None,
            Some(Version::new(2, 0, 0))
        ]
    );
}

#[test]
fn skip_overshadowed_reqs() {
    let versions = Versions::from(["1.0.42", "1.2.3"].as_ref());
    assert_eq!(
        versions.find_latest_versions(
            &[
                VersionReq::parse("^1").unwrap(),
                VersionReq::parse("1.2.3").unwrap(),
            ],
            false
        ),
        vec![Some(Version::new(1, 2, 3)), None,]
    );
}

#[test]
fn skip_prerelease() {
    let versions = Versions::from(["1.0.0", "1.1.0-alpha01"].as_ref());
    assert_eq!(
        versions.find_latest_versions(&[VersionReq::parse("^1").unwrap(),], false),
        vec![Some(Version::new(1, 0, 0))]
    );
}

#[test]
fn include_prerelease() {
    let versions = Versions::from(["1.0.0", "1.1.0-alpha01"].as_ref());
    assert_eq!(
        versions.find_latest_versions(&[VersionReq::parse("^1").unwrap(),], true),
        vec![Some(pre(1, 1, 0, "alpha01"))]
    );
}

#[test]
fn one_result_for_each_requirement() {
    let pool = gds_pool();
    for allow in [false, true] {
        for n in 1..6 {
            let reqs: Vec<VersionReq> = (0..n).map(|i| req(&format!("{}.x", i))).collect();
            assert_eq!(pool.find_latest_versions(&reqs, allow).len(), n);
            let answer = pool.latest_versions(allow, reqs.clone());
            assert_eq!(answer.len(), n);
            for (i, (requirement, _)) in answer.iter().enumerate() {
                assert_eq!(requirement, &reqs[i]);
            }
        }
    }
    let empty = Versions::from(Vec::<String>::new());
    assert_eq!(
        empty.latest_versions(false, vec![req("1"), req("2")]),
        vec![(req("1"), None), (req("2"), None)]
    );
}

#[test]
fn no_requirement_means_star_without_prereleases() {
    let pool = gds_pool();
    let defaulted = pool.latest_versions(false, vec![]);
    let starred = pool.latest_versions(false, vec![req("*")]);
    assert_eq!(defaulted, starred);
    assert_eq!(defaulted, vec![(req("*"), Some(Version::new(1, 3, 1)))]);
    assert_eq!(default_requirement(false), req("*"));
}

#[test]
fn no_requirement_means_highest_overall_with_prereleases() {
    let pool = gds_pool();
    let answer = pool.latest_versions(true, vec![]);
    assert_eq!(
        answer,
        vec![(VersionReq::any(), Some(pre(1, 4, 0, "alpha02")))]
    );
    assert_eq!(default_requirement(true), VersionReq::any());
}

#[test]
fn earlier_requirement_starves_later_one() {
    let versions = Versions::from(["1.0.42", "1.2.3"].as_ref());
    assert_eq!(
        versions.find_latest_versions(&[req("^1.1"), req("^1")], false),
        vec![Some(Version::new(1, 2, 3)), Some(Version::new(1, 0, 42))]
    );
    let versions = Versions::from(["1.2.3"].as_ref());
    assert_eq!(
        versions.find_latest_versions(&[req("^1.1"), req("^1")], false),
        vec![Some(Version::new(1, 2, 3)), None]
    );
    assert_eq!(
        versions.find_latest_versions(&[req("^1"), req("^1.1")], false),
        vec![Some(Version::new(1, 2, 3)), None]
    );
}

#[test]
fn prerelease_gating() {
    let versions = Versions::from(["1.0.0", "1.1.0-alpha01"].as_ref());
    assert_eq!(
        versions.latest_versions(false, vec![req("^1")]),
        vec![(req("^1"), Some(Version::new(1, 0, 0)))]
    );
    assert_eq!(
        versions.latest_versions(true, vec![req("^1")]),
        vec![(req("^1"), Some(pre(1, 1, 0, "alpha01")))]
    );
}

#[test]
fn malformed_versions_are_passed_over() {
    let versions = Versions::from(["1.0.0", "1.337", "not-a-version"].as_ref());
    assert_eq!(
        versions.latest_versions(false, vec![req("*")]),
        vec![(req("*"), Some(Version::new(1, 337, 0)))]
    );
    let noise = Versions::from(["not-a-version", "", "x.y.z"].as_ref());
    assert_eq!(noise.find_latest_versions(&[req("*")], false), vec![None]);
    assert_eq!(noise.find_latest_versions(&[req("*")], true), vec![None]);
}

#[test]
fn minor_compatible_requirements() {
    let pool = gds_pool();
    let reqs = vec![req("~1.1"), req("~1.3"), req("1")];
    assert_eq!(
        pool.latest_versions(false, reqs.clone()),
        vec![
            (req("~1.1"), Some(Version::new(1, 1, 4))),
            (req("~1.3"), Some(Version::new(1, 3, 1))),
            (req("1"), Some(Version::new(1, 2, 3))),
        ]
    );
    assert_eq!(
        pool.latest_versions(true, reqs),
        vec![
            (req("~1.1"), Some(Version::new(1, 1, 4))),
            (req("~1.3"), Some(Version::new(1, 3, 1))),
            (req("1"), Some(pre(1, 4, 0, "alpha02"))),
        ]
    );
}

#[test]
fn major_compatible_requirements() {
    let pool = gds_pool();
    assert_eq!(
        pool.find_latest_versions(&[req("1.1"), req("1.3"), req("1")], false),
        vec![
            Some(Version::new(1, 3, 1)),
            None,
            Some(Version::new(1, 0, 0))
        ]
    );
}

#[test]
fn requirement_without_candidate_gets_nothing() {
    let versions = Versions::from(["1.0.0", "1.5.0"].as_ref());
    assert_eq!(
        versions.find_latest_versions(&[req("7.x")], false),
        vec![None]
    );
    assert_eq!(
        versions.find_latest_versions(&[req("7.x")], true),
        vec![None]
    );
}

#[test]
fn latest_of_equal_precedence() {
    let with_build = |build: &str| Version {
        major: 1,
        minor: 0,
        patch: 0,
        pre: vec![],
        build: vec![Identifier::AlphaNumeric(build.to_string())],
    };
    let same_run = Versions::from(["1.0.0+a", "1.0.0+b"].as_ref());
    assert_eq!(
        same_run.find_latest_versions(&[req("1.x"), req("2.x")], false),
        vec![Some(with_build("b")), None]
    );
    let two_runs = Versions::from(["1.0.0+a", "2.0.0", "1.0.0+b"].as_ref());
    assert_eq!(
        two_runs.find_latest_versions(&[req("1.x"), req("2.x")], false),
        vec![Some(with_build("a")), Some(Version::new(2, 0, 0))]
    );
}

#[test]
fn pool_order_does_not_matter_for_the_greatest() {
    let forward = Versions::from(["1.0.0", "2.0.0", "1.2.0", "2.1.0", "1.1.0"].as_ref());
    let backward = Versions::from(["1.1.0", "2.1.0", "1.2.0", "2.0.0", "1.0.0"].as_ref());
    let reqs = [req("1.x"), req("2.x")];
    let expected = vec![Some(Version::new(1, 2, 0)), Some(Version::new(2, 1, 0))];
    assert_eq!(forward.find_latest_versions(&reqs, false), expected);
    assert_eq!(backward.find_latest_versions(&reqs, false), expected);
}

#[test]
fn numbers_with_a_leading_zero_are_no_versions() {
    let versions = Versions::from(["1.0.0", "1.01.0", "01.5.0", "1.5.00", "v02.0.0", "1.2.3.04"].as_ref());
    assert_eq!(
        versions.find_latest_versions(&[VersionReq::any()], true),
        vec![Some(Version::new(1, 0, 0))]
    );
    let versions = Versions::from(["1.0.0", "1.10.0", "0.5.0", "1.0.0-rc01", "1.0.1-01", "1.2.0+007"].as_ref());
    assert_eq!(
        versions.find_latest_versions(&[req("1.10"), req("0"), req("1.2"), req("*")], true),
        vec![
            Some(Version::new(1, 10, 0)),
            Some(Version::new(0, 5, 0)),
            Some(Version {
                major: 1,
                minor: 2,
                patch: 0,
                pre: vec![],
                build: vec![Identifier::AlphaNumeric("007".into())],
            }),
            Some(Version {
                major: 1,
                minor: 0,
                patch: 1,
                pre: vec![Identifier::AlphaNumeric("01".into())],
                build: vec![],
            }),
        ]
    );
}

#[test]
fn latest_among_given_candidates() {
    assert_eq!(latest_among(vec![], 0), vec![]);
    assert_eq!(latest_among(vec![], 2), vec![None, None]);
    let candidates = vec![
        (1, Version::new(2, 0, 0)),
        (0, Version::new(1, 0, 0)),
        (0, Version::new(1, 2, 0)),
        (0, Version::new(1, 1, 0)),
        (2, pre(3, 0, 0, "rc1")),
        (1, Version::new(2, 1, 0)),
        (0, Version::new(1, 0, 5)),
        (2, pre(3, 0, 0, "beta")),
    ];
    assert_eq!(
        latest_among(candidates, 4),
        vec![
            Some(Version::new(1, 2, 0)),
            Some(Version::new(2, 1, 0)),
            Some(pre(3, 0, 0, "rc1")),
            None
        ]
    );
}
