use curriculum::{
    parse_year_month, CVEmail, CVEntry, CVLanguage, Curriculum, DocumentError, EntryDescription,
    List, PersonalData,
};
use regex::Regex;

fn strings(items: &[&str]) -> Vec<String> {
    items.iter().map(|s| s.to_string()).collect()
}

fn braces(tex: &str) -> (usize, usize) {
    (tex.chars().filter(|&x| x == '{').count(), tex.chars().filter(|&x| x == '}').count())
}

fn part(beginning: &str, end: &str, context: &str) -> CVEntry {
    CVEntry {
        beginning: parse_year_month(beginning),
        end: parse_year_month(end),
        description: Some(EntryDescription {
            context: context.to_string(),
            ..Default::default()
        }),
        ..Default::default()
    }
}

#[test]
fn write_incomplete_personal_data() {
    let personal_data = PersonalData {
        name: "Jessica Meyer".to_string(),
        title: Some("Environmental manager".to_string()),
        mobile: strings(&["+32 56 19 01", "+32 56 19 04"]),
        ..Default::default()
    };
    let result = personal_data.to_latex();
    assert_eq!(
        result,
        "% personal data\n\\firstname{\\LARGE Jessica}\n\\familyname{\\LARGE Meyer}\n\\title{Environmental manager}\n\\mobile{+32 56 19 01}\n\\mobile{+32 56 19 04}"
    );
}

#[test]
fn write_personal_data() {
    let personal_data = PersonalData {
        name: "Jessica Meyer".to_string(),
        title: Some("Environmental manager".to_string()),
        mobile: strings(&["+32 56 19 01", "+32 56 19 04"]),
        email: vec![
            CVEmail { name: None, mail: "nom@example.com".to_string() },
            CVEmail { name: None, mail: "nom@example.org".to_string() },
        ],
        github: Some("example".to_string()),
        webpage: vec![("example".to_string(), "www.example.com".to_string())],
        ..Default::default()
    };
    let result = personal_data.to_latex();
    assert!(result.contains("\\email{nom@example.com}\n\\email{nom@example.org}"));
    assert!(result.contains("\\social[github]{example}"));
    assert!(result.ends_with("\\extrainfo{\\homepagesymbol example \\url{www.example.com}}"));
}

#[test]
fn personal_data_single_name() {
    let personal_data = PersonalData { name: "Jessica".to_string(), ..Default::default() };
    assert_eq!(
        personal_data.to_latex(),
        "% personal data\n\\firstname{\\LARGE Jessica}\n\\familyname{{}}"
    );
}

#[test]
fn description_tex() {
    let entry = EntryDescription {
        context: "some super context".to_string(),
        ci: strings(&["git", "gitlab"]),
        ..Default::default()
    };
    assert_eq!(
        entry.to_latex(),
        "%\nsome super context\n\\begin{description}\n\\item [CI/CD] git, gitlab\n\\end{description}\n"
    );
}

#[test]
fn description_tex_category_order() {
    let entry = EntryDescription {
        context: "c".to_string(),
        other: strings(&["jira"]),
        programming: strings(&["rust"]),
        ..Default::default()
    };
    assert_eq!(
        entry.to_latex(),
        "%\nc\n\\begin{description}\n\\item [programming languages] rust\n\\item [other] jira\n\\end{description}\n"
    );
}

#[test]
fn description_tex_without_skills() {
    let entry = EntryDescription { context: "only context".to_string(), ..Default::default() };
    assert_eq!(entry.to_latex(), "%\nonly context");
}

#[test]
fn write_email() {
    let emails = vec![
        CVEmail { name: Some("John".to_string()), mail: "j@doe.org".to_string() },
        CVEmail { name: None, mail: "blah@example.com".to_string() },
    ];
    let tex: Vec<String> = emails.iter().map(|e| e.to_latex()).collect();
    assert!(tex[0].contains("mailto:"));
    assert!(tex[0].contains("John"));
    assert!(tex[1].contains("mailto:"));
    assert_eq!(tex[0], "John: \\href{mailto:j@doe.org}{j@doe.org}");
    assert_eq!(tex[1], "\\href{mailto:blah@example.com}{blah@example.com}");
}

#[test]
fn language_tex() {
    let l = CVLanguage {
        language: "French".to_string(),
        level: "native".to_string(),
        comment: "".to_string(),
    };
    assert_eq!(l.to_latex(), "\\cvlanguage{French}{native}{}");
}

#[test]
fn list_tex() {
    let l = List(strings(&["a", "b"]));
    assert_eq!(
        l.to_latex(),
        "\\begin{itemize}\n                \\item a\n\\item b\n            \\end{itemize}"
    );
}

#[test]
fn entry_tex_exact() {
    let entry = CVEntry {
        beginning: parse_year_month("2020-01"),
        end: parse_year_month("2021-01"),
        degree: "Engineer".to_string(),
        institution: "ACME".to_string(),
        city: Some("Brussels".to_string()),
        grade: None,
        description: Some(EntryDescription {
            context: "ctx".to_string(),
            ci: strings(&["git", "gitlab"]),
            ..Default::default()
        }),
        subentries: vec![],
    };
    assert_eq!(entry.get_dates(), "2020--2021");
    assert_eq!(
        entry.to_latex(),
        "\\cventry{2020--2021}{Engineer}{ACME}{Brussels}{}{%\n%\nctx\n\\begin{description}\n\\item [CI/CD] git, gitlab\n\\end{description}%\n}"
    );
}

#[test]
fn entry_dates_labels() {
    let only_start = CVEntry { beginning: parse_year_month("2020-01"), ..Default::default() };
    assert_eq!(only_start.get_dates(), "2020");
    assert_eq!(CVEntry::default().get_dates(), "");
}

#[test]
fn subentries_margin() {
    let entry = CVEntry {
        subentries: vec![part("2012-01", "2013-01", "a"), part("2014-01", "2014-05", "b")],
        ..Default::default()
    };
    let tex = entry.to_latex();
    assert_eq!(tex.matches("\\hspace*{-11.5ex}").count(), 2);
    let short = CVEntry { subentries: vec![part("2012-01", "", "a")], ..Default::default() };
    assert!(short.to_latex().contains("\\hspace*{-17.5ex}"));
}

#[test]
fn subentries() {
    let entry = CVEntry {
        beginning: parse_year_month("1977-07-01"),
        end: parse_year_month("2000-11-25"),
        institution: "Campbell, Delgado and Parker".to_string(),
        city: Some("West William".to_string()),
        subentries: vec![
            part("1977-07-01", "1980-07-01", "first part"),
            part("1980-07-01", "1987-07-01", "second part"),
        ],
        ..Default::default()
    };
    let tex = entry.to_latex();
    let (open, close) = braces(&tex);
    assert_eq!(open, close);
    assert!(open > 6);

    let re = Regex::new("cventry").unwrap();
    assert!(re.captures_iter(&tex).collect::<Vec<_>>().len() > 2);
}

#[test]
fn balanced_depth_one() {
    let tex = part("2020-01", "2021-01", "x").to_latex();
    let (open, close) = braces(&tex);
    assert_eq!(open, close);
}

#[test]
fn balanced_depth_three() {
    let mut leaf_parent = part("2001-01", "2002-01", "middle");
    leaf_parent.subentries = vec![part("2001-01", "2001-06", "leaf"), part("2001-06", "2002-01", "leaf")];
    let mut root = part("2000-01", "2005-01", "root");
    root.subentries = vec![leaf_parent, part("2003-01", "2004-01", "side")];
    let tex = root.to_latex();
    let (open, close) = braces(&tex);
    assert_eq!(open, close);
    assert_eq!(tex.matches("\\cventry").count(), 5);
}

#[test]
fn records_for_each_child() {
    let mut root = part("2000-01", "2005-01", "root");
    root.subentries = (0..4).map(|_| part("2001-01", "2002-01", "c")).collect();
    let tex = root.to_latex();
    assert!(tex.matches("\\cventry").count() >= 5);
}

#[test]
fn document_with_preamble() {
    let cv = Curriculum {
        personal_data: PersonalData { name: "Jessica".to_string(), ..Default::default() },
        education: vec![part("2000-01", "2004-01", "study")],
        experiences: vec![],
        languages: vec![CVLanguage {
            language: "English".to_string(),
            level: "fluent".to_string(),
            comment: "".to_string(),
        }],
    };
    let tex = cv.to_latex(b"PREAMBLE").unwrap();
    assert!(tex.starts_with("PREAMBLE\n% personal data"));
    assert!(tex.contains("\n\\begin{document}\n\n\\maketitle\n\\section{Education}\n\\cventry{2000--2004}"));
    assert!(tex.contains("\\section{Languages}\n\\cvlanguage{English}{fluent}{}\n\n\n\\end{document}"));
    assert!(tex.ends_with("\\end{document}"));
    assert_eq!(tex, cv.render("PREAMBLE"));
}

#[test]
fn document_invalid_preamble() {
    let cv = Curriculum::default();
    assert_eq!(cv.to_latex(&[0xff, 0xfe]), Err(DocumentError::InvalidPreamble));
}
