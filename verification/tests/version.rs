use latest_maven_version::version::{Identifier, Version};

fn theirs(text: &str) -> semver::Version {
    lenient_semver::parse::<semver::Version>(text).unwrap()
}

fn own_identifier(id: &semver::Identifier) -> Identifier {
    match id {
        semver::Identifier::Numeric(n) => Identifier::Numeric(*n),
        semver::Identifier::AlphaNumeric(s) => Identifier::AlphaNumeric(s.clone()),
    }
}

fn own(version: &semver::Version) -> Version {
    Version {
        major: version.major,
        minor: version.minor,
        patch: version.patch,
        pre: version.pre.iter().map(own_identifier).collect(),
        build: version.build.iter().map(own_identifier).collect(),
    }
}

const SAMPLES: &[&str] = &[
    "0.0.0",
    "0.0.1",
    "0.1.0",
    "0.9.3",
    "1.0.0-0",
    "1.0.0-1",
    "1.0.0-2.a",
    "1.0.0-10",
    "1.0.0-A",
    "1.0.0-a",
    "1.0.0-a.1",
    "1.0.0-a.b",
    "1.0.0-alpha",
    "1.0.0-alpha.1",
    "1.0.0-alpha.beta",
    "1.0.0-alpha01",
    "1.0.0-alpha02",
    "1.0.0-alpha1",
    "1.0.0-b",
    "1.0.0-beta",
    "1.0.0-beta.2",
    "1.0.0-beta.11",
    "1.0.0-rc.1",
    "1.0.0",
    "1.0.0+build",
    "1.0.0+other.7",
    "1.0.1",
    "1.1.0-alpha01",
    "1.1.0",
    "1.337",
    "2",
    "2.0.0-0",
    "10.0.0",
    "18446744073709551615.0.0",
    "1.2.3-18446744073709551615",
    "1.2.3-18446744073709551616",
];

#[test]
fn precedence_is_that_of_semver() {
    for a in SAMPLES {
        for b in SAMPLES {
            let (x, y) = (theirs(a), theirs(b));
            assert_eq!(own(&x).lt(&own(&y)), x < y, "{} < {}", a, b);
        }
    }
}

#[test]
fn precedence_of_the_very_rules() {
    let alpha = |tag: &str| Version {
        major: 1,
        minor: 0,
        patch: 0,
        pre: vec![Identifier::AlphaNumeric(tag.to_string())],
        build: vec![],
    };
    let numeric = |n: u64| Version {
        major: 1,
        minor: 0,
        patch: 0,
        pre: vec![Identifier::Numeric(n)],
        build: vec![],
    };
    let release = Version::new(1, 0, 0);
    assert!(Version::new(1, 9, 9).lt(&Version::new(2, 0, 0)));
    assert!(Version::new(1, 1, 9).lt(&Version::new(1, 2, 0)));
    assert!(Version::new(1, 1, 1).lt(&Version::new(1, 1, 2)));
    assert!(!release.lt(&release));
    assert!(alpha("alpha").lt(&release));
    assert!(!release.lt(&alpha("alpha")));
    assert!(numeric(9).lt(&numeric(10)));
    assert!(numeric(u64::MAX).lt(&alpha("0a")));
    assert!(!alpha("0a").lt(&numeric(0)));
    assert!(alpha("alpha").lt(&alpha("beta")));
    assert!(alpha("alpha").lt(&alpha("alpha1")));
    assert!(alpha("Z").lt(&alpha("a")));
    assert!(alpha("a").lt(&alpha("ä")));
    assert!(alpha("z").lt(&alpha("\u{1f600}")));
    let longer = Version {
        pre: vec![Identifier::AlphaNumeric("alpha".into()), Identifier::Numeric(1)],
        ..Version::new(1, 0, 0)
    };
    assert!(alpha("alpha").lt(&longer));
    assert!(!longer.lt(&alpha("alpha")));
    let built = Version {
        build: vec![Identifier::Numeric(7)],
        ..Version::new(1, 0, 0)
    };
    assert!(!built.lt(&release));
    assert!(!release.lt(&built));
    assert!(release.is_prerelease() == false);
    assert!(alpha("alpha").is_prerelease());
    assert!(!built.is_prerelease());
}

#[test]
fn identifiers_compare() {
    let n = Identifier::Numeric;
    let a = |s: &str| Identifier::AlphaNumeric(s.to_string());
    assert!(n(1).lt(&n(2)));
    assert!(!n(2).lt(&n(2)));
    assert!(n(2).same(&n(2)));
    assert!(!n(2).same(&a("2")));
    assert!(n(2).lt(&a("2")));
    assert!(a("abc").same(&a("abc")));
    assert!(!a("abc").same(&a("abd")));
    assert!(a("abc").lt(&a("abd")));
    assert!(a("ab").lt(&a("abc")));
    assert!(!a("abc").lt(&a("ab")));
}

#[test]
fn versions_are_written_as_semver_writes_them() {
    for text in SAMPLES {
        let version = theirs(text);
        assert_eq!(own(&version).render(), version.to_string());
    }
    assert_eq!(Version::new(1, 2, 3).render(), "1.2.3");
    let full = Version {
        major: 1,
        minor: 3,
        patch: 37,
        pre: vec![
            Identifier::AlphaNumeric("alpha".into()),
            Identifier::Numeric(21),
        ],
        build: vec![
            Identifier::AlphaNumeric("build".into()),
            Identifier::Numeric(42),
            Identifier::AlphaNumeric("x".into()),
        ],
    };
    assert_eq!(full.render(), "1.3.37-alpha.21+build.42.x");
}
