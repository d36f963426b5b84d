//! The sets of localized texts, one per language, and the choice of language.
use vstd::prelude::*;

use crate::keyed::{
    keys_distinct, lemma_pairs_map_at, lemma_pairs_map_dom, lemma_pairs_map_push,
    lemma_pairs_map_update, pairs_map,
};

verus! {

/// The localized texts of one language, by their key.
pub type LocalMap = std::collections::HashMap<String, String>;

/// The map of strings that serde_json reads from `json`, if it reads a JSON
/// object of strings to strings.
pub uninterp spec fn parsed_local_map(json: Seq<char>) -> Option<Map<String, String>>;

/// Reads a JSON object of strings to strings with
/// `serde_json::from_str::<HashMap<String, String>>`. Claimed: the result
/// depends on the text alone, and its contents are named `parsed_local_map`;
/// serde_json's reading of JSON is not restated.
#[verifier::external_body]
fn parse_local_map(json: &str) -> (r: Option<LocalMap>)
    ensures
        match r {
            Some(m) => parsed_local_map(json@) == Some(m@),
            None => parsed_local_map(json@) is None,
        },
{
    match serde_json::from_str::<LocalMap>(json) {
        Ok(m) => Some(m),
        Err(_) => None,
    }
}

/// The abstract state of a `Locals`: the default language and the texts of
/// each loaded language.
#[verifier::reject_recursive_types(V)]
pub struct LocalsView<V> {
    pub default: Seq<char>,
    pub locals: Map<Seq<char>, V>,
}

impl<V> LocalsView<V> {
    /// The texts served for the language `key`: its own, or the default
    /// language's where it is not loaded.
    pub open spec fn served(self, key: Seq<char>) -> V {
        if self.locals.contains_key(key) {
            self.locals[key]
        } else {
            self.locals[self.default]
        }
    }

    /// Some texts can be served for `key`.
    pub open spec fn can_serve(self, key: Seq<char>) -> bool {
        self.locals.contains_key(key) || self.locals.contains_key(self.default)
    }

    /// The state after the texts `local` were loaded for the language `key`.
    pub open spec fn loaded(self, key: Seq<char>, local: V) -> LocalsView<V> {
        LocalsView { locals: self.locals.insert(key, local), ..self }
    }
}

/// Once the texts of a language are loaded, they are what is served for it.
pub proof fn law_served_after_load<V>(l: LocalsView<V>, key: Seq<char>, local: V)
    ensures
        l.loaded(key, local).can_serve(key),
        l.loaded(key, local).served(key) == local,
{
}

/// Loading one language changes nothing that is served for another loaded
/// language.
pub proof fn law_load_keeps_other_languages<V>(
    l: LocalsView<V>,
    key: Seq<char>,
    local: V,
    other: Seq<char>,
)
    requires
        other != key,
        l.locals.contains_key(other),
    ensures
        l.loaded(key, local).served(other) == l.served(other),
{
}

/// Once the default language is loaded, texts can be served for every
/// language.
pub proof fn law_default_serves_all<V>(l: LocalsView<V>, key: Seq<char>)
    requires
        l.locals.contains_key(l.default),
    ensures
        l.can_serve(key),
        !l.locals.contains_key(key) ==> l.served(key) == l.locals[l.default],
{
}

/// The localized texts of every loaded language, with the language to fall
/// back on.
pub struct Locals {
    default: &'static str,
    locals: Vec<(String, LocalMap)>,
}

impl View for Locals {
    type V = LocalsView<LocalMap>;

    closed spec fn view(&self) -> LocalsView<LocalMap> {
        LocalsView { default: self.default@, locals: pairs_map(self.locals@) }
    }
}

impl Locals {
    #[verifier::type_invariant]
    spec fn names_are_distinct(self) -> bool {
        keys_distinct(self.locals@)
    }

    /// No language loaded yet; `default` is the language to fall back on.
    pub fn new(default: &'static str) -> (l: Locals)
        ensures
            l@.default == default@,
            l@.locals == Map::<Seq<char>, LocalMap>::empty(),
    {
        Locals { default, locals: Vec::new() }
    }

    fn find(&self, key: &str) -> (r: Option<usize>)
        ensures
            match r {
                Some(i) => i < self.locals@.len() && self.locals@[i as int].0@ == key@,
                None => forall|i: int| 0 <= i < self.locals@.len() ==> self.locals@[i].0@ != key@,
            },
    {
        let wanted: String = key.to_owned();
        let mut i: usize = 0;
        while i < self.locals.len()
            invariant
                wanted@ == key@,
                i <= self.locals@.len(),
                forall|j: int| 0 <= j < i ==> self.locals@[j].0@ != key@,
            decreases self.locals@.len() - i,
        {
            if self.locals[i].0 == wanted {
                return Some(i);
            }
            i = i + 1;
        }
        None
    }

    /// Stores the texts `local` of the language `key`, in place of those it had.
    fn store(&mut self, key: String, local: LocalMap)
        ensures
            final(self)@ == old(self)@.loaded(key@, local),
    {
        proof {
            use_type_invariant(&*self);
        }
        let ghost before = self.locals@;
        let pos = self.find(key.as_str());
        let mut all: Vec<(String, LocalMap)> = Vec::new();
        std::mem::swap(&mut all, &mut self.locals);
        match pos {
            Some(i) => {
                proof {
                    lemma_pairs_map_update(before, i as int, (before[i as int].0, local));
                }
                let name = all[i].0.clone();
                all.set(i, (name, local));
                assert(all@ =~= before.update(i as int, (before[i as int].0, local)));
            },
            None => {
                proof {
                    lemma_pairs_map_dom(before, key@);
                    lemma_pairs_map_push(before, (key, local));
                }
                all.push((key, local));
            },
        }
        self.locals = all;
    }

    /// Loads the texts of the language `key` from `json`, a JSON object of
    /// strings to strings, in place of those it had. Where `json` does not
    /// read as such an object, nothing changes and the result is `false`.
    pub fn load(&mut self, key: String, json: &str) -> (ok: bool)
        ensures
            ok == (parsed_local_map(json@) is Some),
            ok ==> exists|m: LocalMap|
                m@ == parsed_local_map(json@).unwrap() && final(self)@ == old(self)@.loaded(key@, m),
            !ok ==> final(self)@ == old(self)@,
    {
        match parse_local_map(json) {
            Some(local) => {
                let ghost m = local;
                self.store(key, local);
                assert(m@ == parsed_local_map(json@).unwrap() && self@ == old(self)@.loaded(key@, m));
                true
            },
            None => false,
        }
    }

    /// Whether texts can be served for the language `key`: it is loaded, or
    /// the default language is.
    pub fn can_serve(&self, key: &str) -> (r: bool)
        ensures
            r == self@.can_serve(key@),
    {
        proof {
            use_type_invariant(self);
            lemma_pairs_map_dom(self.locals@, key@);
            lemma_pairs_map_dom(self.locals@, self.default@);
        }
        self.find(key).is_some() || self.find(self.default).is_some()
    }

    /// The texts of the language `key`, or those of the default language
    /// where `key` is not loaded.
    pub fn get(&self, key: &str) -> (r: &LocalMap)
        requires
            self@.can_serve(key@),
        ensures
            *r == self@.served(key@),
    {
        proof {
            use_type_invariant(self);
            lemma_pairs_map_dom(self.locals@, key@);
            lemma_pairs_map_dom(self.locals@, self.default@);
        }
        match self.find(key) {
            Some(i) => {
                proof {
                    lemma_pairs_map_at(self.locals@, i as int);
                }
                &self.locals[i].1
            },
            None => {
                match self.find(self.default) {
                    Some(j) => {
                        proof {
                            lemma_pairs_map_at(self.locals@, j as int);
                        }
                        &self.locals[j].1
                    },
                    None => {
                        assert(false);
                        &self.locals[0].1
                    },
                }
            },
        }
    }
}

/// The page to go back to after the language is set.
pub struct RedirectPage {
    pub page: String,
}

/// What setting the language does: a cookie named `lang`, for the path `/`,
/// that holds the language, and a redirection.
pub struct LangChange {
    pub cookie_name: String,
    pub cookie_value: String,
    pub cookie_path: String,
    pub location: String,
}

/// Sets the language to `lang` and goes back to `redirect_page`, or to the
/// root where none is given.
pub fn set_lang(lang: String, redirect_page: Option<RedirectPage>) -> (c: LangChange)
    ensures
        c.cookie_name@ == seq!['l', 'a', 'n', 'g'],
        c.cookie_value == lang,
        c.cookie_path@ == seq!['/'],
        c.location@ == match redirect_page {
            Some(p) => p.page@,
            None => seq!['/'],
        },
{
    proof {
        reveal_strlit("lang");
        reveal_strlit("/");
    }
    let location: String = match redirect_page {
        Some(rpage) => rpage.page,
        None => "/".to_owned(),
    };
    let name: String = "lang".to_owned();
    let path: String = "/".to_owned();
    assert(name@ =~= seq!['l', 'a', 'n', 'g']);
    assert(path@ =~= seq!['/']);
    LangChange { cookie_name: name, cookie_value: lang, cookie_path: path, location }
}

/// The language that the `lang` cookie holds; the cookie must be there.
pub fn get_lang(lang_cookie: Option<&str>) -> (l: String)
    requires
        lang_cookie is Some,
    ensures
        l@ == lang_cookie.unwrap()@,
{
    match lang_cookie {
        Some(value) => value.to_owned(),
        None => {
            assert(false);
            String::new()
        },
    }
}

/// The language that a request asks for: that of its `lang` cookie, or
/// `default` where it has none.
pub fn requested_lang<'a>(lang_cookie: Option<&'a str>, default: &'a str) -> (l: &'a str)
    ensures
        l@ == match lang_cookie {
            Some(c) => c@,
            None => default@,
        },
{
    match lang_cookie {
        Some(c) => c,
        None => default,
    }
}

/// The language in which a page is shown, and whether the `lang` cookie must
/// be set to it: the cookie's language where there is one; otherwise the
/// page's own language, which the cookie then remembers.
pub fn choose_page_lang(lang_cookie: Option<String>, page_lang: &String) -> (r: (String, bool))
    ensures
        match lang_cookie {
            Some(c) => r.0 == c && !r.1,
            None => r.0@ == page_lang@ && r.1,
        },
{
    match lang_cookie {
        Some(c) => (c, false),
        None => (page_lang.clone(), true),
    }
}

} // verus!
