use urlabbrev::{abbreviate_max, count_name_chars, normalise, split_path};

#[test]
fn should_remove_scheme() {
    let url = "file:///test.csv";
    assert_eq!(abbreviate_max(url, &[], None).unwrap(), "/test.csv");
}

#[test]
fn should_remove_www() {
    let url = "ftp://www.testingdomain.co.uk";
    assert_eq!(abbreviate_max(url, &[], None).unwrap(), "testingdomain.co.uk");
}

#[test]
fn should_remove_trailing_slash() {
    let url = "http://testingdomain.co.uk/userstuff/";
    assert_eq!(
        abbreviate_max(url, &[], None).unwrap(),
        "testingdomain.co.uk/userstuff"
    );
}

#[test]
fn if_url_is_too_long_it_should_abbreviate_path_underscore() {
    let url = "http://www.test.co.uk/userstuff/john_doe/103914/";
    let names = vec!["John", "Doé"];
    assert_eq!(
        abbreviate_max(url, &names, Some(10)).unwrap(),
        "test.co.uk/.../john_doe"
    );
}

#[test]
fn if_url_is_too_long_it_should_abbreviate_path_slash() {
    let url = "http://www.test.co.uk/userstuff/عاصم/Doe/39393939/";
    let names = vec!["عاصم", "Doe"];
    assert_eq!(
        abbreviate_max(url, &names, Some(10)).unwrap(),
        "test.co.uk/.../عاصم/Doe"
    );
}

#[test]
fn if_url_is_too_long_it_should_abbreviate_path_name_only() {
    let url = "http://www.test.co.uk/userstuff/Christopher/103914/abcdef";
    let names = vec!["Christopher", "Alexander"];
    assert_eq!(
        abbreviate_max(url, &names, Some(12)).unwrap(),
        "test.co.uk/.../Christopher/.../..."
    );
}

#[test]
fn if_url_is_too_long_it_should_abbreviate_path_dash() {
    let url = "http://www.test.co.uk/userstuff/robert-Smith/103914/abcdef";
    let names = vec!["Robert", "Smith"];
    assert_eq!(
        abbreviate_max(url, &names, Some(10)).unwrap(),
        "test.co.uk/.../robert-Smith"
    );
}

#[test]
fn if_url_is_too_long_it_should_abbreviate_path_period() {
    let url = "http://www.test.co.uk/john.doe/is/great/abcdef";
    let names = vec!["John", "Doe"];
    assert_eq!(
        abbreviate_max(url, &names, Some(10)).unwrap(),
        "test.co.uk/john.doe"
    );
}

#[test]
fn normalise_should_convert_to_lowercase() {
    assert_eq!(normalise("John"), normalise("john"));
}

#[test]
fn normalise_should_remove_accents() {
    assert_eq!(normalise("Álvaro"), normalise("alvaro"));
}

#[test]
fn path_split_should_normalise_single_component() {
    let path = "Hello";
    let parsed = split_path(path);
    assert_eq!(parsed.len(), 1);
    assert_eq!(parsed[0].get_original(), "Hello");
    assert_eq!(parsed[0].get_normalised(), "hello");
}

#[test]
fn path_split_should_normalise_components() {
    let path = "This/is/a-Path/Characters893";
    let parsed = split_path(path);
    assert_eq!(parsed.len(), 5);

    assert_eq!(parsed[0].get_original(), "This/");
    assert_eq!(parsed[0].get_normalised(), "this");

    assert_eq!(parsed[1].get_original(), "is/");
    assert_eq!(parsed[1].get_normalised(), "is");

    assert_eq!(parsed[2].get_original(), "a-");
    assert_eq!(parsed[2].get_normalised(), "a");

    assert_eq!(parsed[3].get_original(), "Path/");
    assert_eq!(parsed[3].get_normalised(), "path");

    assert_eq!(parsed[4].get_original(), "Characters893");
    assert_eq!(parsed[4].get_normalised(), "characters");
}

#[test]
fn path_split_should_normalise_components_starting_with_slash() {
    let path = "/userstuff/Christopher/103914/abcdef";
    let parsed = split_path(path);
    assert_eq!(parsed.len(), 5);

    assert_eq!(parsed[0].get_original(), "/");
    assert_eq!(parsed[0].get_normalised(), "");

    assert_eq!(parsed[1].get_original(), "userstuff/");
    assert_eq!(parsed[1].get_normalised(), "userstuff");

    assert_eq!(parsed[2].get_original(), "Christopher/");
    assert_eq!(parsed[2].get_normalised(), "christopher");

    assert_eq!(parsed[3].get_original(), "103914/");
    assert_eq!(parsed[3].get_normalised(), "");

    assert_eq!(parsed[4].get_original(), "abcdef");
    assert_eq!(parsed[4].get_normalised(), "abcdef");
}

#[test]
fn path_split_should_normalise_components_with_accents() {
    let path = "path/cómico-camión";
    let parsed = split_path(path);
    assert_eq!(parsed.len(), 3);

    assert_eq!(parsed[0].get_original(), "path/");
    assert_eq!(parsed[0].get_normalised(), "path");

    assert_eq!(parsed[1].get_original(), "cómico-");
    assert_eq!(parsed[1].get_normalised(), "comico");

    assert_eq!(parsed[2].get_original(), "camión");
    assert_eq!(parsed[2].get_normalised(), "camion");
}

#[test]
fn path_split_should_normalise_components_in_unicode() {
    let path = "path/عاصم-test";
    let parsed = split_path(path);
    assert_eq!(parsed.len(), 3);

    assert_eq!(parsed[0].get_original(), "path/");
    assert_eq!(parsed[0].get_normalised(), "path");

    assert_eq!(parsed[1].get_original(), "عاصم-");
    assert_eq!(parsed[1].get_normalised(), "`Sm");

    assert_eq!(parsed[2].get_original(), "test");
    assert_eq!(parsed[2].get_normalised(), "test");
}

#[test]
fn path_split_should_normalise_components_single_car() {
    let path = "a/b#C-d_e^f";
    let parsed = split_path(path);
    assert_eq!(parsed.len(), 6);

    assert_eq!(parsed[0].get_original(), "a/");
    assert_eq!(parsed[0].get_normalised(), "a");

    assert_eq!(parsed[1].get_original(), "b#");
    assert_eq!(parsed[1].get_normalised(), "b");

    assert_eq!(parsed[2].get_original(), "C-");
    assert_eq!(parsed[2].get_normalised(), "c");

    assert_eq!(parsed[3].get_original(), "d_");
    assert_eq!(parsed[3].get_normalised(), "d");

    assert_eq!(parsed[4].get_original(), "e^");
    assert_eq!(parsed[4].get_normalised(), "e");

    assert_eq!(parsed[5].get_original(), "f");
    assert_eq!(parsed[5].get_normalised(), "f");
}

#[test]
fn count_name_chars_should_count_starting_alpha_chars() {
    assert_eq!(count_name_chars("test_"), 4);
    assert_eq!(count_name_chars("test"), 4);
    assert_eq!(count_name_chars("?test_"), 0);
}
