use identity_credential::claim_path::parse;
use identity_credential::claim_path::ClaimPath;
use identity_credential::claim_path::PathSegment;
use identity_credential::claim_tree::ClaimTree;
use identity_credential::error::Error;

fn field(name: &str) -> PathSegment {
    PathSegment::Field(name.to_owned())
}

fn path(segments: Vec<PathSegment>) -> ClaimPath {
    ClaimPath { segments }
}

fn tree(names: &[&str]) -> ClaimTree {
    ClaimTree::from_names(names.iter().map(|n| n.to_string()).collect())
}

#[test]
fn parse_single_name() {
    assert_eq!(parse("name"), Ok(path(vec![field("name")])));
}

#[test]
fn parse_dotted_names() {
    assert_eq!(parse("degree.name"), Ok(path(vec![field("degree"), field("name")])));
}

#[test]
fn parse_indexed_segment() {
    assert_eq!(
        parse("mainCourses[1]"),
        Ok(path(vec![field("mainCourses"), PathSegment::Index(1)]))
    );
}

#[test]
fn parse_mixed_path() {
    assert_eq!(
        parse("vc.credentialSubject.degree[12].name"),
        Ok(path(vec![
            field("vc"),
            field("credentialSubject"),
            field("degree"),
            PathSegment::Index(12),
            field("name"),
        ]))
    );
}

#[test]
fn parse_keeps_the_value_of_an_index_with_leading_zeros() {
    assert_eq!(parse("a[007]"), Ok(path(vec![field("a"), PathSegment::Index(7)])));
}

#[test]
fn parse_takes_the_largest_index() {
    assert_eq!(
        parse("a[18446744073709551615]"),
        Ok(path(vec![field("a"), PathSegment::Index(u64::MAX)]))
    );
}

#[test]
fn parse_rejects_an_index_beyond_64_bits() {
    assert_eq!(parse("a[18446744073709551616]"), Err(Error::MalformedPath));
    assert_eq!(parse("a[99999999999999999999999]"), Err(Error::MalformedPath));
}

#[test]
fn parse_rejects_empty_segments() {
    assert_eq!(parse(""), Err(Error::MalformedPath));
    assert_eq!(parse("."), Err(Error::MalformedPath));
    assert_eq!(parse("a."), Err(Error::MalformedPath));
    assert_eq!(parse(".a"), Err(Error::MalformedPath));
    assert_eq!(parse("a..b"), Err(Error::MalformedPath));
}

#[test]
fn parse_rejects_non_numeric_indices() {
    assert_eq!(parse("a[x]"), Err(Error::MalformedPath));
    assert_eq!(parse("a[1x]"), Err(Error::MalformedPath));
    assert_eq!(parse("a[-1]"), Err(Error::MalformedPath));
    assert_eq!(parse("a[]"), Err(Error::MalformedPath));
}

#[test]
fn parse_rejects_unmatched_brackets() {
    assert_eq!(parse("a[1"), Err(Error::MalformedPath));
    assert_eq!(parse("a1]"), Err(Error::MalformedPath));
    assert_eq!(parse("a]1["), Err(Error::MalformedPath));
    assert_eq!(parse("[1]"), Err(Error::MalformedPath));
    assert_eq!(parse("a[1]b"), Err(Error::MalformedPath));
    assert_eq!(parse("a[1][2]"), Err(Error::MalformedPath));
}

#[test]
fn parse_takes_names_with_other_characters() {
    assert_eq!(parse("@context"), Ok(path(vec![field("@context")])));
    assert_eq!(parse("été.naïve"), Ok(path(vec![field("été"), field("naïve")])));
}

#[test]
fn prefix_of_a_path() {
    let whole = parse("a.b[2].c").unwrap();
    assert!(parse("a").unwrap().is_prefix_of(&whole));
    assert!(parse("a.b").unwrap().is_prefix_of(&whole));
    assert!(parse("a.b[2]").unwrap().is_prefix_of(&whole));
    assert!(whole.is_prefix_of(&whole));
    assert!(!parse("a.b[3]").unwrap().is_prefix_of(&whole));
    assert!(!parse("a.c").unwrap().is_prefix_of(&whole));
    assert!(!parse("a.b[2].c.d").unwrap().is_prefix_of(&whole));
}

#[test]
fn duplicate_is_equal() {
    let p = parse("a.b[2].c").unwrap();
    assert_eq!(p.duplicate(), p);
    assert_eq!(p.len(), 4);
}

#[test]
fn locate_a_leaf() {
    let t = tree(&["id", "name", "mainCourses[0]", "mainCourses[1]", "degree.type", "degree.name"]);
    assert_eq!(t.locate(&parse("mainCourses[1]").unwrap()), Ok(vec![3]));
    assert_eq!(t.locate(&parse("degree.name").unwrap()), Ok(vec![5]));
    assert_eq!(t.locate(&parse("id").unwrap()), Ok(vec![0]));
}

#[test]
fn locate_a_mapping_or_a_sequence() {
    let t = tree(&["id", "name", "mainCourses[0]", "mainCourses[1]", "degree.type", "degree.name"]);
    assert_eq!(t.locate(&parse("mainCourses").unwrap()), Ok(vec![2, 3]));
    assert_eq!(t.locate(&parse("degree").unwrap()), Ok(vec![4, 5]));
}

#[test]
fn locate_fails_on_an_absent_field() {
    let t = tree(&["id", "name", "mainCourses[0]", "mainCourses[1]", "degree.type", "degree.name"]);
    assert_eq!(t.locate(&parse("age").unwrap()), Err(Error::PathNotFound));
    assert_eq!(t.locate(&parse("degree.year").unwrap()), Err(Error::PathNotFound));
    assert_eq!(t.locate(&parse("mainCourses[2]").unwrap()), Err(Error::PathNotFound));
}

#[test]
fn locate_fails_on_a_step_of_the_wrong_kind() {
    let t = tree(&["id", "name", "mainCourses[0]", "mainCourses[1]", "degree.type", "degree.name"]);
    assert_eq!(t.locate(&parse("name[0]").unwrap()), Err(Error::PathNotFound));
    assert_eq!(t.locate(&parse("degree[0]").unwrap()), Err(Error::PathNotFound));
    assert_eq!(t.locate(&parse("mainCourses.first").unwrap()), Err(Error::PathNotFound));
    assert_eq!(t.locate(&parse("name.first").unwrap()), Err(Error::PathNotFound));
}

#[test]
fn locate_does_not_match_a_name_that_only_starts_alike() {
    let t = tree(&["name", "names[0]"]);
    assert_eq!(t.locate(&parse("name").unwrap()), Ok(vec![0]));
    assert_eq!(t.locate(&parse("nam").unwrap()), Err(Error::PathNotFound));
}

#[test]
fn resolve_parses_then_locates() {
    let t = tree(&["id", "name", "mainCourses[0]", "mainCourses[1]", "degree.type", "degree.name"]);
    assert_eq!(t.resolve("degree.type"), Ok(vec![4]));
    assert_eq!(t.resolve("degree"), Ok(vec![4, 5]));
    assert_eq!(t.resolve("degree..type"), Err(Error::MalformedPath));
    assert_eq!(t.resolve("degree.kind"), Err(Error::PathNotFound));
}

#[test]
fn resolve_succeeds_for_every_prefix_of_every_leaf() {
    let names = ["a.b[0].c", "a.b[1].c", "a.d", "e[3]"];
    let t = tree(&names);
    for p in ["a", "a.b", "a.b[0]", "a.b[0].c", "a.b[1]", "a.b[1].c", "a.d", "e", "e[3]"] {
        assert!(t.resolve(p).is_ok());
    }
    for p in ["b", "a.c", "a.b[2]", "a.b.c", "e[0]", "a.d.d", "a[0]"] {
        assert_eq!(t.resolve(p), Err(Error::PathNotFound));
    }
}

#[test]
fn a_leaf_that_repeats_a_name_has_no_address() {
    let t = tree(&["a", "b", "a", "a.c"]);
    assert_eq!(t.len(), 4);
    assert_eq!(t.name(2), "a");
    assert_eq!(t.resolve("a"), Ok(vec![0, 3]));
    assert_eq!(t.resolve("b"), Ok(vec![1]));
}

#[test]
fn leaves_below_a_sequence_in_a_sequence_are_found() {
    let t = tree(&["x[0][0]", "x[0][1].p", "x[1]", "x[2][0][3]", "y"]);
    assert_eq!(t.resolve("x"), Ok(vec![0, 1, 2, 3]));
    assert_eq!(t.resolve("x[0]"), Ok(vec![0, 1]));
    assert_eq!(t.resolve("x[1]"), Ok(vec![2]));
    assert_eq!(t.resolve("x[2]"), Ok(vec![3]));
    assert_eq!(t.resolve("x[3]"), Err(Error::PathNotFound));
    assert_eq!(t.resolve("x[0].p"), Err(Error::PathNotFound));
    assert_eq!(t.resolve("y"), Ok(vec![4]));
    let deep = path(vec![field("x"), PathSegment::Index(0), PathSegment::Index(1), field("p")]);
    assert_eq!(t.locate(&deep), Ok(vec![1]));
    let deeper = path(vec![field("x"), PathSegment::Index(2), PathSegment::Index(0)]);
    assert_eq!(t.locate(&deeper), Ok(vec![3]));
}

#[test]
fn the_single_leaf_below_nested_sequences_makes_the_path_exist() {
    let t = tree(&["x[0][0]"]);
    assert_eq!(t.resolve("x"), Ok(vec![0]));
    assert_eq!(t.resolve("x[0]"), Ok(vec![0]));
    assert_eq!(t.resolve("x[1]"), Err(Error::PathNotFound));
}

#[test]
fn leaves_with_unusual_names_are_below_what_their_names_start_with() {
    let t = tree(&["b.", "c..d", "e[0]x", "f[01]", "g[x]", "h]"]);
    assert_eq!(t.resolve("b"), Ok(vec![0]));
    assert_eq!(t.resolve("c"), Ok(vec![1]));
    assert_eq!(t.resolve("e"), Ok(vec![2]));
    assert_eq!(t.resolve("e[0]"), Err(Error::PathNotFound));
    assert_eq!(t.resolve("f[1]"), Ok(vec![3]));
    assert_eq!(t.resolve("g"), Ok(vec![4]));
    assert_eq!(t.resolve("h"), Err(Error::PathNotFound));
}

#[test]
fn the_empty_path_leads_nowhere() {
    let t = tree(&["a"]);
    assert_eq!(t.locate(&path(vec![])), Err(Error::PathNotFound));
    assert_eq!(t.locate(&path(vec![field("")])), Err(Error::PathNotFound));
}

#[test]
fn locate_in_an_empty_tree() {
    let t = tree(&[]);
    assert_eq!(t.len(), 0);
    assert_eq!(t.resolve("a"), Err(Error::PathNotFound));
}
