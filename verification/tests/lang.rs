use fried_world::lang::{choose_page_lang, get_lang, requested_lang, set_lang, LocalMap, Locals, RedirectPage};
use fried_world::paste::{Paste, PastePageContext};
use fried_world::page::CorePageContext;

fn local(greeting: &str) -> LocalMap {
    let mut m = LocalMap::new();
    m.insert("greeting".to_string(), greeting.to_string());
    m
}

fn json(greeting: &str) -> String {
    format!("{{\"greeting\": \"{}\"}}", greeting)
}

#[test]
fn locals_fall_back_on_default() {
    let mut locals = Locals::new("en");
    assert!(locals.load("fr".to_string(), &json("bonjour")));
    assert!(locals.load("en".to_string(), &json("hello")));
    assert_eq!(locals.get("fr")["greeting"], "bonjour");
    assert_eq!(locals.get("en")["greeting"], "hello");
    assert_eq!(locals.get("ja")["greeting"], "hello");
    assert_eq!(locals.get("")["greeting"], "hello");
}

#[test]
fn locals_load_replaces() {
    let mut locals = Locals::new("en");
    assert!(locals.load("en".to_string(), &json("hello")));
    assert!(locals.load("en".to_string(), &json("hi")));
    assert_eq!(locals.get("en")["greeting"], "hi");
    assert_eq!(locals.get("de")["greeting"], "hi");
}

#[test]
fn locals_refuse_bad_json() {
    let mut locals = Locals::new("en");
    assert!(locals.load("en".to_string(), &json("hello")));
    assert!(!locals.load("en".to_string(), "{\"greeting\": 3}"));
    assert!(!locals.load("fr".to_string(), "not json"));
    assert_eq!(locals.get("en")["greeting"], "hello");
    assert_eq!(locals.get("fr")["greeting"], "hello");
    let mut empty = Locals::new("en");
    assert!(!empty.load("en".to_string(), "[]"));
    assert!(!empty.can_serve("en"));
}

#[test]
fn setting_the_language() {
    let c = set_lang("ja".to_string(), Some(RedirectPage { page: "/japanese".to_string() }));
    assert_eq!(c.cookie_name, "lang");
    assert_eq!(c.cookie_value, "ja");
    assert_eq!(c.cookie_path, "/");
    assert_eq!(c.location, "/japanese");
    let c = set_lang("fr".to_string(), None);
    assert_eq!(c.cookie_value, "fr");
    assert_eq!(c.location, "/");
}

#[test]
fn reading_the_language() {
    assert_eq!(get_lang(Some("fr")), "fr");
    assert_eq!(requested_lang(Some("ja"), "en"), "ja");
    assert_eq!(requested_lang(None, "en"), "en");
    assert_eq!(choose_page_lang(Some("en".to_string()), &"fr".to_string()), ("en".to_string(), false));
    assert_eq!(choose_page_lang(None, &"fr".to_string()), ("fr".to_string(), true));
}

#[test]
fn paste_context() {
    let m = local("hello");
    let paste = Paste { content: "some text".to_string() };
    let c = PastePageContext::new(paste.content, "abc".to_string(), CorePageContext::new(&m, "/paste/view/abc".to_string()));
    assert_eq!(c.paste, "some text");
    assert_eq!(c.id, "abc");
    assert_eq!(c.core.uri, "/paste/view/abc");
}
