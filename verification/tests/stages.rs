use renamer::listing::{select_files, MAX_FILES};
use renamer::matching::match_names;
use renamer::text::{replace_all, str_lex_le};

fn strings(names: &[&str]) -> Vec<String> {
    names.iter().map(|n| n.to_string()).collect()
}

#[test]
fn replacement_agrees_with_std_replace() {
    let cases = [
        ("report_draft.txt", "draft", "final"),
        ("notes.md", "draft", "final"),
        ("aaaa", "aa", "a"),
        ("banana", "an", "anan"),
        ("abc", "", "x"),
        ("", "", "x"),
        ("héllo wörld", "ö", "o"),
        ("xyxyx", "xyx", "q"),
    ];
    for (s, from, to) in cases {
        assert_eq!(replace_all(s, from, to), s.replace(from, to));
    }
}

#[test]
fn replacement_is_one_pass_not_fixpoint() {
    // one full non-overlapping pass only: four a's collapse to two,
    // not to one
    assert_eq!(replace_all("aaaa", "aa", "a"), "aa");
    // hence applying the rule twice differs from applying it once
    let once = replace_all("aaaa", "aa", "a");
    let twice = replace_all(&once, "aa", "a");
    assert_eq!(twice, "a");
    assert_ne!(once, twice);
}

#[test]
fn replacement_reapplies_when_replacement_reintroduces_search() {
    // "ca" does not contain "ab", yet one pass leaves a fresh "ab"
    let once = replace_all("abb", "ab", "ca");
    assert_eq!(once, "cab");
    assert_eq!(replace_all(&once, "ab", "ca"), "cca");
}

#[test]
fn replacement_with_empty_search_interleaves() {
    assert_eq!(replace_all("abc", "", "x"), "xaxbxcx");
    assert_eq!(replace_all("", "", "x"), "x");
}

#[test]
fn lexicographic_order_agrees_with_std() {
    let names = ["", "a", "ab", "b", "notes.md", "report_draft.txt", "Z", "é", "ü.txt", "z9"];
    for a in names {
        for b in names {
            assert_eq!(str_lex_le(a, b), a <= b, "{a:?} vs {b:?}");
        }
    }
}

#[test]
fn selection_sorts_the_listing() {
    let out = select_files(strings(&["b.txt", "a.txt", "c.txt", "B.txt"]));
    assert_eq!(out, strings(&["B.txt", "a.txt", "b.txt", "c.txt"]));
}

#[test]
fn selection_keeps_at_most_fifty_entries() {
    assert_eq!(MAX_FILES, 50);
    let mut names: Vec<String> = Vec::new();
    for i in 0..55 {
        names.push(format!("b{:02}", i));
    }
    // a name sorting first, but beyond the cap: never considered
    names.push("a00".to_string());
    let out = select_files(names);
    assert_eq!(out.len(), 50);
    assert!(!out.contains(&"a00".to_string()));
    assert_eq!(out[0], "b00");
    assert_eq!(out[49], "b49");
}

#[test]
fn selection_sorting_agrees_with_std_sort() {
    let mut names = strings(&["z.txt", "é.txt", "a.txt", "ü.txt", "B.txt"]);
    let out = select_files(names.clone());
    names.sort();
    assert_eq!(out, names);
}

#[test]
fn selection_of_empty_listing_is_empty() {
    assert_eq!(select_files(Vec::new()).len(), 0);
}

#[test]
fn matcher_keeps_exactly_the_full_matches() {
    let p = glob::Pattern::new("report_*").unwrap();
    let names = strings(&["notes.md", "report_draft.txt", "report_final.txt"]);
    let out = match_names(&p, &names);
    assert_eq!(out, strings(&["report_draft.txt", "report_final.txt"]));
}

#[test]
fn matcher_requires_the_whole_name_to_match() {
    // a bare substring is not a match: the pattern covers the name
    let p = glob::Pattern::new("port").unwrap();
    let names = strings(&["report", "port", "portal"]);
    assert_eq!(match_names(&p, &names), strings(&["port"]));
}

#[test]
fn matcher_with_wildcards_and_classes() {
    let p = glob::Pattern::new("c?t").unwrap();
    let names = strings(&["cat", "cot", "coat", "ct"]);
    assert_eq!(match_names(&p, &names), strings(&["cat", "cot"]));

    let p = glob::Pattern::new("[0-9]*.txt").unwrap();
    let names = strings(&["1a.txt", "a1.txt", "9.txt"]);
    assert_eq!(match_names(&p, &names), strings(&["1a.txt", "9.txt"]));
}

#[test]
fn matcher_keeps_listing_order() {
    let p = glob::Pattern::new("*.txt").unwrap();
    let names = strings(&["c.txt", "a.md", "b.txt", "a.txt"]);
    assert_eq!(match_names(&p, &names), strings(&["c.txt", "b.txt", "a.txt"]));
}

#[test]
fn matcher_may_return_nothing() {
    let p = glob::Pattern::new("*.rs").unwrap();
    let names = strings(&["a.txt", "b.md"]);
    assert_eq!(match_names(&p, &names).len(), 0);
}
