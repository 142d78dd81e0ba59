use oyo_core::blame::parse_blame_porcelain;

#[test]
fn porcelain_groups_and_fields() {
    let out = "\
abcdef0123456789 1 10 2
author Ada
author-time 1700000000
summary First commit
filename a.txt
\tline ten
abcdef0123456789 2 11
\tline eleven
0000000000000000 3 12 1
author Not Committed Yet
author-time  -5 
\tline twelve
";
    let entries = parse_blame_porcelain(out);
    assert_eq!(entries.len(), 3);
    assert_eq!(entries[0].0, 10);
    assert_eq!(entries[0].1.author, "Ada");
    assert_eq!(entries[0].1.commit, "abcdef0123456789");
    assert_eq!(entries[0].1.author_time, Some(1700000000));
    assert_eq!(entries[0].1.summary, "First commit");
    assert!(!entries[0].1.uncommitted);
    assert_eq!(entries[1].0, 11);
    assert_eq!(entries[1].1.author, "Ada");
    assert_eq!(entries[2].0, 12);
    assert!(entries[2].1.uncommitted);
    assert_eq!(entries[2].1.author_time, Some(-5));
    // the summary is kept from the group before
    assert_eq!(entries[2].1.summary, "");
}

#[test]
fn porcelain_skips_bad_headers_and_stray_content() {
    let out = "\tstray\nnot a header\nabc 1 x 1\nabc 1 7 0\n\tseven\n\teight\n";
    let entries = parse_blame_porcelain(out);
    assert_eq!(entries.len(), 1);
    assert_eq!(entries[0].0, 7);
    assert_eq!(entries[0].1.commit, "abc");
    assert_eq!(entries[0].1.author_time, None);
}
