use regex::Regex;
use rssdeduper::ids::{
    convert_url_to_filename, convert_url_to_unique_filename, extract_unique_id_and_host_from_url_string,
    generate_uuid,
};

#[test]
fn extract_faz() {
    let url = "https://www.faz.net/aktuell/finanzen/zinssaetze-fuer-festgeld-warum-erste-banken-die-sparzinsen-wieder-senken-19313464.html";
    assert_eq!(
        extract_unique_id_and_host_from_url_string(url).unwrap(),
        (String::from("19313464"), String::from("www.faz.net"))
    );
}

#[test]
fn extract_stz() {
    let url = "https://www.stuttgarter-zeitung.de/inhalt.gluehwein-djs-und-handgemachte-geschenke-kleine-und-alternative-weihnachtsmaerkte-in-stuttgart.f3d6053d-c298-4b83-8e70-d5d6e7e8ed78.html";
    assert_eq!(
        extract_unique_id_and_host_from_url_string(url).unwrap(),
        (
            String::from("f3d6053d-c298-4b83-8e70-d5d6e7e8ed78"),
            String::from("www.stuttgarter-zeitung.de")
        )
    );
}

#[test]
fn extract_elpais() {
    let url = "https://elviajero.elpais.com/elviajero/2022/07/26/actualidad/1658829008_842300.html#?ref=rss&format=simple&link=link
        ";
    assert_eq!(
        extract_unique_id_and_host_from_url_string(url).unwrap(),
        (
            String::from("1658829008_842300"),
            String::from("elviajero.elpais.com")
        )
    );
}

#[test]
fn test_convert_url_to_filename() {
    let url = "https://www.faz.net/aktuell/finanzen/";
    assert_eq!(
        convert_url_to_filename(url),
        String::from("https_www_faz_net_aktuell_finanzen_.rss")
    );
}

#[test]
fn test_generate_uuid() {
    let uuid_regex = Regex::new(
        r"[0-9a-fA-F]{8}-[0-9a-fA-F]{4}-[1-5][0-9a-fA-F]{3}-[89abAB][0-9a-fA-F]{3}-[0-9a-fA-F]{12}",
    )
    .unwrap();
    let uuid = generate_uuid();
    assert!(uuid_regex.captures(&uuid).is_some());
    assert_eq!(uuid.len(), 36);
}

#[test]
fn test_convert_url_to_unique_filename() {
    let url = "https://www.faz.net/aktuell/finanzen/";
    let uuid = generate_uuid();
    assert_eq!(
        convert_url_to_unique_filename(url, &uuid),
        uuid + "https_www_faz_net_aktuell_finanzen_.rss"
    );
}

#[test]
fn identity_is_deterministic() {
    let url = "https://www.faz.net/aktuell/politik/ein-artikel-19313464.html?utm=1";
    let first = extract_unique_id_and_host_from_url_string(url);
    let second = extract_unique_id_and_host_from_url_string(url);
    assert_eq!(first, second);
    assert_eq!(first.unwrap().0, "19313464");
}

#[test]
fn uuid_wins_over_digit_run() {
    let url = "https://example.org/2023123456/F3D6053D-C298-4B83-8E70-D5D6E7E8ED78/story.html";
    assert_eq!(
        extract_unique_id_and_host_from_url_string(url).unwrap(),
        (
            String::from("F3D6053D-C298-4B83-8E70-D5D6E7E8ED78"),
            String::from("example.org")
        )
    );
}

#[test]
fn uuid_with_bad_version_is_no_uuid() {
    // version nibble 6 is outside 1 to 5, so the digit run decides
    let url = "https://example.org/f3d6053d-c298-6b83-8e70-d5d6e7e8ed78/item-4242424.html";
    assert_eq!(
        extract_unique_id_and_host_from_url_string(url).unwrap().0,
        "4242424"
    );
}

#[test]
fn numeric_fallback_takes_first_long_run() {
    let url = "https://www.faz.net/aktuell/12345/x-19313464.html";
    assert_eq!(
        extract_unique_id_and_host_from_url_string(url).unwrap().0,
        "19313464"
    );
}

#[test]
fn digit_run_may_hold_underscores() {
    let url = "https://host.example/a/__1234_5/b";
    assert_eq!(
        extract_unique_id_and_host_from_url_string(url).unwrap().0,
        "__1234_5"
    );
}

#[test]
fn whole_link_is_the_fallback_id() {
    let url = "https://www.example.com/news/some-story.html?id=12345678";
    assert_eq!(
        extract_unique_id_and_host_from_url_string(url).unwrap(),
        (String::from(url), String::from("www.example.com"))
    );
}

#[test]
fn host_is_case_folded() {
    let url = "https://WWW.Example.COM/a/123456";
    assert_eq!(
        extract_unique_id_and_host_from_url_string(url).unwrap(),
        (String::from("123456"), String::from("www.example.com"))
    );
}

#[test]
fn unparseable_link_has_no_identity() {
    assert_eq!(extract_unique_id_and_host_from_url_string("not a url"), None);
    assert_eq!(extract_unique_id_and_host_from_url_string(""), None);
}

#[test]
fn url_without_host_has_empty_host() {
    assert_eq!(
        extract_unique_id_and_host_from_url_string("mailto:someone@example.org").unwrap(),
        (String::from("mailto:someone@example.org"), String::new())
    );
}

#[test]
fn filename_collapses_runs() {
    assert_eq!(convert_url_to_filename("a--b//c"), "a_b_c.rss");
    assert_eq!(convert_url_to_filename(""), ".rss");
    assert_eq!(convert_url_to_filename("??x"), "_x.rss");
}
