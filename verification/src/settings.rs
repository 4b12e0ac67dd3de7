//! Site settings of the single-page blog layout: named texts read from the
//! settings file.

use vstd::prelude::*;
use vstd::hash_map::StringHashMap;
use crate::text::{push_str, string_of};

verus! {

broadcast use vstd::string::group_string_axioms;

/// The settings, by key.
pub struct SiteSettings {
    map: StringHashMap<String>,
}

impl View for SiteSettings {
    type V = Map<Seq<char>, Seq<char>>;

    closed spec fn view(&self) -> Map<Seq<char>, Seq<char>> {
        self.map@.map_values(|v: String| v@)
    }
}

/// The value of a setting, or `default` when it is not set.
pub open spec fn setting_value(m: Map<Seq<char>, Seq<char>>, key: Seq<char>, default: Seq<char>) -> Seq<char> {
    if m.contains_key(key) {
        m[key]
    } else {
        default
    }
}

impl SiteSettings {
    /// No setting.
    pub fn new() -> (r: Self)
        ensures
            r@ == Map::<Seq<char>, Seq<char>>::empty(),
    {
        let r = SiteSettings { map: StringHashMap::new() };
        assert(r@ =~= Map::<Seq<char>, Seq<char>>::empty());
        r
    }

    /// Sets `key` to `value`, replacing what it was.
    pub fn insert(&mut self, key: String, value: String)
        ensures
            final(self)@ == old(self)@.insert(key@, value@),
    {
        let ghost k = key@;
        let ghost v = value@;
        self.map.insert(key, value);
        assert(self@ =~= old(self)@.insert(k, v));
    }

    /// The value of `key`, if it is set.
    pub fn get(&self, key: &str) -> (r: Option<String>)
        ensures
            r matches Some(v) ==> self@.contains_key(key@) && self@[key@] == v@,
            r is None ==> !self@.contains_key(key@),
    {
        match self.map.get(key) {
            Some(v) => Some(v.clone()),
            None => None,
        }
    }
}

/// The value of a setting, or `default_val` when it is not set.
pub fn get_site_settings_val(site_settings: &SiteSettings, key: &str, default_val: &str) -> (r: String)
    ensures
        r@ == setting_value(site_settings@, key@, default_val@),
{
    match site_settings.get(key) {
        Some(v) => v,
        None => default_val.to_string(),
    }
}

/// The address the built-in server listens on: the local host and the
/// `server_port` setting, `7878` when it is not set.
pub fn server_address(site_settings: &SiteSettings) -> (r: String)
    ensures
        r@ == "127.0.0.1:"@ + setting_value(site_settings@, "server_port"@, "7878"@),
{
    let port = get_site_settings_val(site_settings, "server_port", "7878");
    let mut v: Vec<char> = Vec::new();
    push_str(&mut v, "127.0.0.1:");
    push_str(&mut v, port.as_str());
    assert(v@ =~= "127.0.0.1:"@ + port@);
    string_of(&v)
}

/// A setting reads back what was last set for it; setting one key leaves the
/// others as they were; with nothing set, every key reads its default.
pub proof fn law_settings_read_after_write(
    m: Map<Seq<char>, Seq<char>>,
    key: Seq<char>,
    value: Seq<char>,
    other: Seq<char>,
    default: Seq<char>,
)
    ensures
        setting_value(m.insert(key, value), key, default) == value,
        other != key ==> setting_value(m.insert(key, value), other, default) == setting_value(
            m,
            other,
            default,
        ),
        setting_value(Map::empty(), key, default) == default,
{
}

} // verus!
