use repo_walker::acquire::{
    acquire, cache_path, contains, locate, Acquisition, AcquisitionError, Source,
};

fn chars(text: &str) -> Vec<char> {
    text.chars().collect()
}

#[test]
fn remote_location_is_cached_by_its_last_segment() {
    let source = locate("https://github.com/kachayev/fn.py");
    assert_eq!(
        source,
        Source::Remote {
            url: "https://github.com/kachayev/fn.py".to_string(),
            cache: "repos/fn.py".to_string(),
        }
    );
}

#[test]
fn location_without_the_marker_is_a_local_path() {
    assert_eq!(locate("repos/fn.py"), Source::Local { path: "repos/fn.py".to_string() });
    assert_eq!(locate(""), Source::Local { path: String::new() });
    assert_eq!(
        locate("https://gitlab.com/a/b"),
        Source::Local { path: "https://gitlab.com/a/b".to_string() }
    );
}

#[test]
fn cache_path_takes_what_follows_the_last_slash() {
    assert_eq!(cache_path("https://github.com/kachayev/fn.py"), "repos/fn.py");
    assert_eq!(cache_path("github.com"), "repos/github.com");
    assert_eq!(cache_path("https://github.com/kachayev/"), "repos/");
    assert_eq!(cache_path(""), "repos/");
    assert_eq!(cache_path("/"), "repos/");
    assert_eq!(cache_path("a/b/çé"), "repos/çé");
}

#[test]
fn cache_path_agrees_with_split_and_last() {
    for url in ["https://github.com/x/y", "x", "x/", "/x", "a//b", "é/ü/github.com"] {
        let expected = format!("repos/{}", url.split('/').last().unwrap());
        assert_eq!(cache_path(url), expected);
    }
}

#[test]
fn contains_finds_the_pattern_wherever_it_stands() {
    assert!(contains(&chars("github.com"), &chars("github.com")));
    assert!(contains(&chars("git@github.com:a/b.git"), &chars("github.com")));
    assert!(contains(&chars("xgithub.com"), &chars("github.com")));
    assert!(contains(&chars("abc"), &chars("")));
    assert!(contains(&chars(""), &chars("")));
    assert!(!contains(&chars("github.co"), &chars("github.com")));
    assert!(!contains(&chars("github,com"), &chars("github.com")));
    assert!(!contains(&chars(""), &chars("github.com")));
    assert!(!contains(&chars("githubgithub.cogithub.cmo"), &chars("github.com")));
}

#[test]
fn contains_agrees_with_str_contains() {
    for text in ["https://github.com/a", "githu", "ggithub.comm", "éègithub.com", "hub.comgit"] {
        assert_eq!(contains(&chars(text), &chars("github.com")), text.contains("github.com"));
    }
}

#[test]
fn existing_cache_is_opened_and_not_cloned() {
    let source = locate("https://github.com/kachayev/fn.py");
    assert_eq!(acquire(source, true), Acquisition::Open { path: "repos/fn.py".to_string() });
}

#[test]
fn remote_without_cache_is_cloned_once_into_its_cache() {
    let url = "https://github.com/kachayev/fn.py";
    let first = acquire(locate(url), false);
    assert_eq!(
        first,
        Acquisition::CloneInto { url: url.to_string(), path: "repos/fn.py".to_string() }
    );
    // once the clone is there, the same location is opened
    let second = acquire(locate(url), true);
    assert_eq!(second, Acquisition::Open { path: "repos/fn.py".to_string() });
}

#[test]
fn local_path_is_opened_whatever_the_cache() {
    assert_eq!(
        acquire(locate("/srv/repo"), false),
        Acquisition::Open { path: "/srv/repo".to_string() }
    );
    assert_eq!(
        acquire(locate("/srv/repo"), true),
        Acquisition::Open { path: "/srv/repo".to_string() }
    );
}

#[test]
fn failures_of_opening_and_cloning_are_told_apart() {
    assert_eq!(acquire(locate("/srv/repo"), false).failure(), AcquisitionError::Open);
    assert_eq!(
        acquire(locate("https://github.com/a/b"), true).failure(),
        AcquisitionError::Open
    );
    assert_eq!(
        acquire(locate("https://github.com/a/b"), false).failure(),
        AcquisitionError::Clone
    );
}
