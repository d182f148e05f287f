use curriculum::{
    add_skillsets, parse_year_month, CVDuration, CVEntry, CalendarDate, Category, Curriculum,
    EntryDescription, SkillSet,
};

fn strings(items: &[&str]) -> Vec<String> {
    items.iter().map(|s| s.to_string()).collect()
}

fn set_of(items: &[(Category, &str, CVDuration)]) -> SkillSet {
    let mut s = SkillSet::new();
    for (c, name, d) in items {
        s.set(*c, name.to_string(), *d);
    }
    s
}

fn days(n: u32) -> CVDuration {
    CVDuration::from_days(n)
}

fn experience(beginning: &str, end: &str, description: EntryDescription) -> CVEntry {
    CVEntry {
        beginning: parse_year_month(beginning),
        end: parse_year_month(end),
        city: Some("Brussels".to_string()),
        description: Some(description),
        ..Default::default()
    }
}

#[test]
fn skills_accumulator() {
    let mut skills0 = SkillSet::new();
    let skills1 = set_of(&[
        (Category::Other, "english", days(20)),
        (Category::Other, "spanish", days(30)),
        (Category::Other, "french", days(1)),
        (Category::VersionControl, "jira", days(0)),
    ]);
    add_skillsets(&mut skills0, &skills1);
    assert_eq!(skills0.get(Category::Other, "english"), Some(days(20)));
    assert_eq!(skills0.get(Category::VersionControl, "jira"), Some(days(0)));

    let skills2 = set_of(&[
        (Category::Other, "arabic", days(3)),
        (Category::Other, "french", days(10)),
        (Category::Database, "cars", days(0)),
    ]);
    add_skillsets(&mut skills0, &skills2);
    assert_eq!(skills0.get(Category::Other, "english"), Some(days(20)));
    assert_eq!(skills0.get(Category::Other, "spanish"), Some(days(30)));
    assert_eq!(skills0.get(Category::Other, "french"), Some(days(11)));
    assert_eq!(skills0.get(Category::Other, "arabic"), Some(days(3)));
    assert_eq!(skills0.get(Category::VersionControl, "jira"), Some(days(0)));
    assert_eq!(skills0.get(Category::Database, "cars"), Some(days(0)));
    assert_eq!(skills0.len(), 6);
}

#[test]
fn merge_with_itself_doubles() {
    let one = set_of(&[(Category::CiCd, "git", CVDuration { year: 1, month: 0 })]);
    let mut acc = set_of(&[(Category::CiCd, "git", CVDuration { year: 1, month: 0 })]);
    add_skillsets(&mut acc, &one);
    assert_eq!(acc.get(Category::CiCd, "git"), Some(CVDuration { year: 2, month: 0 }));
    assert_eq!(acc.len(), 1);
}

#[test]
fn merge_adds_with_carry() {
    let mut acc = set_of(&[(Category::CiCd, "git", CVDuration { year: 1, month: 1 })]);
    let other = set_of(&[
        (Category::CiCd, "git", CVDuration { year: 0, month: 11 }),
        (Category::CiCd, "gitlab", CVDuration { year: 0, month: 3 }),
    ]);
    add_skillsets(&mut acc, &other);
    assert_eq!(acc.get(Category::CiCd, "git"), Some(CVDuration { year: 2, month: 0 }));
    assert_eq!(acc.get(Category::CiCd, "gitlab"), Some(CVDuration { year: 0, month: 3 }));
    assert_eq!(acc.get(Category::Other, "git"), None);
}

#[test]
fn get_cv_skills() {
    let cv = Curriculum {
        experiences: vec![
            experience(
                "2022-10",
                "2023-11",
                EntryDescription {
                    context: "some super context".to_string(),
                    ci: strings(&["git", "gitlab"]),
                    ..Default::default()
                },
            ),
            experience(
                "2022-09",
                "2023-07",
                EntryDescription {
                    context: "some super context".to_string(),
                    ci: strings(&["git", "gitlab"]),
                    cloud: strings(&["azure"]),
                    ..Default::default()
                },
            ),
        ],
        ..Default::default()
    };
    let s = cv.get_skills().unwrap();
    assert_eq!(s.get(Category::CiCd, "git"), Some(CVDuration { year: 1, month: 11 }));
    assert_eq!(s.get(Category::CloudComputing, "azure"), Some(CVDuration { year: 0, month: 10 }));
    assert_eq!(s.get(Category::CiCd, "gitlab"), Some(CVDuration { year: 1, month: 11 }));
    assert_eq!(s.get(Category::Database, "azure"), None);
}

#[test]
fn no_beginning_gives_zero_skills() {
    let entry = CVEntry {
        description: Some(EntryDescription {
            ci: strings(&["git"]),
            ..Default::default()
        }),
        ..Default::default()
    };
    assert_eq!(entry.cv_duration(), None);
    let s = entry.extract_skills_duration();
    assert_eq!(s.get(Category::CiCd, "git"), Some(CVDuration { year: 0, month: 0 }));
    assert_eq!(s.len(), 1);
}

#[test]
fn no_description_gives_no_skills() {
    let entry = CVEntry {
        beginning: parse_year_month("2020-01"),
        end: parse_year_month("2021-01"),
        ..Default::default()
    };
    assert_eq!(entry.extract_skills_duration().len(), 0);
}

#[test]
fn duplicate_skill_in_one_entry_counts_once() {
    let entry = experience(
        "2020-01",
        "2021-01",
        EntryDescription {
            ci: strings(&["git", "git"]),
            ..Default::default()
        },
    );
    let s = entry.extract_skills_duration();
    assert_eq!(s.len(), 1);
    assert_eq!(s.get(Category::CiCd, "git"), Some(CVDuration { year: 1, month: 0 }));
}

fn tree(children: Vec<CVEntry>) -> CVEntry {
    CVEntry {
        beginning: parse_year_month("2010-01"),
        end: parse_year_month("2011-01"),
        description: Some(EntryDescription {
            ci: strings(&["git"]),
            ..Default::default()
        }),
        subentries: children,
        ..Default::default()
    }
}

fn children() -> Vec<CVEntry> {
    vec![
        experience(
            "2012-01",
            "2012-07",
            EntryDescription {
                ci: strings(&["git"]),
                cloud: strings(&["aws"]),
                ..Default::default()
            },
        ),
        experience(
            "2013-01",
            "2013-11",
            EntryDescription {
                ci: strings(&["git"]),
                ..Default::default()
            },
        ),
        experience(
            "2014-01",
            "2014-03",
            EntryDescription {
                cloud: strings(&["aws"]),
                other: strings(&["jira"]),
                ..Default::default()
            },
        ),
    ]
}

#[test]
fn subtree_skills_add_up() {
    let today = CalendarDate::new(2024, 1, 1).unwrap();
    let s = tree(children()).extract_subentries_skills_at(&today);
    assert_eq!(s.get(Category::CiCd, "git"), Some(CVDuration { year: 2, month: 4 }));
    assert_eq!(s.get(Category::CloudComputing, "aws"), Some(CVDuration { year: 0, month: 8 }));
    assert_eq!(s.get(Category::Other, "jira"), Some(CVDuration { year: 0, month: 2 }));
    assert_eq!(s.len(), 3);
}

#[test]
fn subtree_skills_ignore_child_order() {
    let today = CalendarDate::new(2024, 1, 1).unwrap();
    let forward = tree(children()).extract_subentries_skills_at(&today);
    let mut reversed_children = children();
    reversed_children.reverse();
    let backward = tree(reversed_children).extract_subentries_skills_at(&today);
    assert_eq!(forward.len(), backward.len());
    for t in forward.totals() {
        assert_eq!(backward.get(t.category, &t.skill), Some(t.duration));
    }
}

#[test]
fn subtree_skills_now() {
    let s = tree(children()).extract_subentries_skills().unwrap();
    assert_eq!(s.get(Category::CiCd, "git"), Some(CVDuration { year: 2, month: 4 }));
}
