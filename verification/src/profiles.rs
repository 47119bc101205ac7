//! Named profiles: sets of font, color and terminal settings that override
//! the configuration, and the manager that keeps them.

use vstd::prelude::*;

use crate::config::{
    ColorConfig, ColorConfigView, Config, ConfigView, FontConfig, FontConfigView, TerminalConfig,
    TerminalConfigView,
};

verus! {

/// A named set of settings; each one that is given overrides the
/// configuration.
pub struct Profile {
    pub name: String,
    pub font: Option<FontConfig>,
    pub colors: Option<ColorConfig>,
    pub terminal: Option<TerminalConfig>,
    pub command: Option<String>,
}

/// The value of a [`Profile`].
pub struct ProfileView {
    pub name: Seq<char>,
    pub font: Option<FontConfigView>,
    pub colors: Option<ColorConfigView>,
    pub terminal: Option<TerminalConfigView>,
    pub command: Option<Seq<char>>,
}

impl View for Profile {
    type V = ProfileView;

    open spec fn view(&self) -> ProfileView {
        ProfileView {
            name: self.name@,
            font: match self.font {
                Some(f) => Some(f@),
                None => None,
            },
            colors: match self.colors {
                Some(c) => Some(c@),
                None => None,
            },
            terminal: match self.terminal {
                Some(t) => Some(t@),
                None => None,
            },
            command: match self.command {
                Some(c) => Some(c@),
                None => None,
            },
        }
    }
}

pub open spec fn profiles_view(v: Seq<Profile>) -> Seq<ProfileView> {
    v.map_values(|p: Profile| p@)
}

/// The name of the profile that always exists.
pub open spec fn default_name() -> Seq<char> {
    "Default"@
}

impl Clone for Profile {
    fn clone(&self) -> (r: Self)
        ensures
            r@ == self@,
    {
        Profile {
            name: self.name.clone(),
            font: match &self.font {
                Some(f) => Some(f.clone()),
                None => None,
            },
            colors: match &self.colors {
                Some(c) => Some(c.clone()),
                None => None,
            },
            terminal: match &self.terminal {
                Some(t) => Some(t.clone()),
                None => None,
            },
            command: match &self.command {
                Some(c) => Some(c.clone()),
                None => None,
            },
        }
    }
}

impl Default for Profile {
    fn default() -> (p: Self)
        ensures
            p@ == (ProfileView {
                name: default_name(),
                font: None,
                colors: None,
                terminal: None,
                command: None,
            }),
    {
        Profile {
            name: String::from_str("Default"),
            font: None,
            colors: None,
            terminal: None,
            command: None,
        }
    }
}

// ---------------------------------------------------------------------------
// The manager, as mathematics
// ---------------------------------------------------------------------------

/// The first profile at or after `k` with this name.
pub open spec fn profile_index_from(ps: Seq<ProfileView>, name: Seq<char>, k: int) -> Option<int>
    decreases ps.len() - k,
{
    if k < 0 || k >= ps.len() {
        None
    } else if ps[k].name == name {
        Some(k)
    } else {
        profile_index_from(ps, name, k + 1)
    }
}

pub open spec fn profile_index(ps: Seq<ProfileView>, name: Seq<char>) -> Option<int> {
    profile_index_from(ps, name, 0)
}

/// The profiles not named `name`, in order.
pub open spec fn without_named(ps: Seq<ProfileView>, name: Seq<char>) -> Seq<ProfileView>
    decreases ps.len(),
{
    if ps.len() == 0 {
        ps
    } else {
        let r = without_named(ps.drop_last(), name);
        if ps.last().name == name {
            r
        } else {
            r.push(ps.last())
        }
    }
}

/// The profile that carries the configuration's own settings.
pub open spec fn config_profile(c: ConfigView) -> ProfileView {
    ProfileView {
        name: default_name(),
        font: Some(c.font),
        colors: Some(c.colors),
        terminal: Some(c.terminal),
        command: None,
    }
}

/// The value of a [`ProfileManager`].
pub struct ProfileManagerView {
    pub profiles: Seq<ProfileView>,
    pub default_profile: Seq<char>,
}

/// The setting a profile gives, or the configuration's when the profile
/// does not exist or gives none.
pub open spec fn resolved<T>(
    ps: Seq<ProfileView>,
    name: Seq<char>,
    pick: spec_fn(ProfileView) -> Option<T>,
    fallback: T,
) -> T {
    match profile_index(ps, name) {
        Some(i) => match pick(ps[i]) {
            Some(v) => v,
            None => fallback,
        },
        None => fallback,
    }
}

/// Keeps the profiles and which one is the default.
pub struct ProfileManager {
    pub profiles: Vec<Profile>,
    pub default_profile: String,
}

impl View for ProfileManager {
    type V = ProfileManagerView;

    open spec fn view(&self) -> ProfileManagerView {
        ProfileManagerView {
            profiles: profiles_view(self.profiles@),
            default_profile: self.default_profile@,
        }
    }
}

/// The index of the first profile named `name`.
fn find_profile(profiles: &Vec<Profile>, name: &String) -> (r: Option<usize>)
    ensures
        r matches Some(i) ==> i < profiles@.len() && profile_index(profiles_view(profiles@), name@)
            == Some(i as int),
        r is None ==> profile_index(profiles_view(profiles@), name@) is None,
{
    let ghost ps = profiles_view(profiles@);
    let mut i: usize = 0;
    while i < profiles.len()
        invariant
            i <= profiles@.len(),
            ps == profiles_view(profiles@),
            profile_index(ps, name@) == profile_index_from(ps, name@, i as int),
        decreases profiles.len() - i,
    {
        if profiles[i].name == *name {
            return Some(i);
        }
        i += 1;
    }
    None
}

/// Copies of the profiles not named `name`, in order.
fn profiles_without(profiles: &Vec<Profile>, name: &String) -> (r: Vec<Profile>)
    ensures
        profiles_view(r@) == without_named(profiles_view(profiles@), name@),
{
    let ghost ps = profiles_view(profiles@);
    let mut out: Vec<Profile> = Vec::new();
    for i in 0..profiles.len()
        invariant
            ps == profiles_view(profiles@),
            profiles_view(out@) == without_named(ps.take(i as int), name@),
    {
        assert(ps.take(i + 1).drop_last() =~= ps.take(i as int));
        assert(ps.take(i + 1).last() == profiles@[i as int]@);
        if profiles[i].name != *name {
            let p = profiles[i].clone();
            let ghost before = profiles_view(out@);
            out.push(p);
            assert(profiles_view(out@) =~= before.push(p@));
        }
    }
    assert(ps.take(ps.len() as int) =~= ps);
    out
}

impl ProfileManager {
    /// Creates a new ProfileManager with a single "Default" profile.
    pub fn new() -> (m: Self)
        ensures
            m@.profiles == seq![
                ProfileView {
                    name: default_name(),
                    font: None,
                    colors: None,
                    terminal: None,
                    command: None,
                },
            ],
            m@.default_profile == default_name(),
    {
        let mut profiles: Vec<Profile> = Vec::new();
        profiles.push(Profile::default());
        let m = Self { profiles, default_profile: String::from_str("Default") };
        assert(m@.profiles =~= seq![m.profiles@[0]@]);
        m
    }

    /// Builds a ProfileManager from the main Config.
    ///
    /// The config values become the "Default" profile. Any profiles defined in
    /// `config.profiles` are appended afterwards, but for those also named
    /// "Default".
    pub fn load_from_config(config: &Config) -> (m: Self)
        ensures
            m@.profiles == seq![config_profile(config@)] + without_named(
                config@.profiles,
                default_name(),
            ),
            m@.default_profile == default_name(),
    {
        let default_profile = Profile {
            name: String::from_str("Default"),
            font: Some(config.font.clone()),
            colors: Some(config.colors.clone()),
            terminal: Some(config.terminal.clone()),
            command: None,
        };
        let default_name_str = String::from_str("Default");
        let rest = profiles_without(&config.profiles, &default_name_str);
        let mut profiles: Vec<Profile> = Vec::new();
        profiles.push(default_profile);
        let ghost first = profiles_view(profiles@);
        for i in 0..rest.len()
            invariant
                profiles_view(profiles@) == first + profiles_view(rest@).take(i as int),
        {
            let p = rest[i].clone();
            let ghost before = profiles_view(profiles@);
            profiles.push(p);
            assert(profiles_view(profiles@) =~= before.push(p@));
            assert(profiles_view(rest@).take(i + 1) =~= profiles_view(rest@).take(i as int).push(
                rest@[i as int]@,
            ));
        }
        assert(profiles_view(rest@).take(rest@.len() as int) =~= profiles_view(rest@));
        assert(first =~= seq![config_profile(config@)]);
        Self { profiles, default_profile: default_name_str }
    }

    /// Find a profile by name.
    pub fn get(&self, name: &str) -> (r: Option<&Profile>)
        ensures
            r matches Some(p) ==> profile_index(self@.profiles, name@) matches Some(i) && p@
                == self@.profiles[i],
            r is None ==> profile_index(self@.profiles, name@) is None,
    {
        let name = name.to_owned();
        match find_profile(&self.profiles, &name) {
            Some(i) => Some(&self.profiles[i]),
            None => None,
        }
    }

    /// Get the default profile.
    pub fn get_default(&self) -> (p: &Profile)
        requires
            profile_index(self@.profiles, self@.default_profile) is Some,
        ensures
            p@ == self@.profiles[profile_index(self@.profiles, self@.default_profile).unwrap()],
    {
        match find_profile(&self.profiles, &self.default_profile) {
            Some(i) => &self.profiles[i],
            None => &self.profiles[0],
        }
    }

    /// Add a new profile.
    pub fn add(&mut self, profile: Profile)
        ensures
            final(self)@.profiles == old(self)@.profiles.push(profile@),
            final(self)@.default_profile == old(self)@.default_profile,
    {
        self.profiles.push(profile);
        assert(profiles_view(self.profiles@) =~= profiles_view(old(self).profiles@).push(profile@));
    }

    /// Remove a profile by name. Cannot remove the default profile.
    pub fn remove(&mut self, name: &str)
        ensures
            final(self)@.default_profile == old(self)@.default_profile,
            name@ == old(self)@.default_profile ==> final(self)@.profiles == old(self)@.profiles,
            name@ != old(self)@.default_profile ==> final(self)@.profiles == without_named(
                old(self)@.profiles,
                name@,
            ),
    {
        let name = name.to_owned();
        if name == self.default_profile {
            return;
        }
        self.profiles = profiles_without(&self.profiles, &name);
    }

    /// List all profile names.
    pub fn list(&self) -> (names: Vec<&str>)
        ensures
            names@.len() == self@.profiles.len(),
            forall|i: int| 0 <= i < names@.len() ==> (#[trigger] names@[i])@ == self@.profiles[i].name,
    {
        let mut names: Vec<&str> = Vec::new();
        for i in 0..self.profiles.len()
            invariant
                names@.len() == i,
                forall|k: int|
                    0 <= k < i ==> (#[trigger] names@[k])@ == profiles_view(self.profiles@)[k].name,
        {
            names.push(self.profiles[i].name.as_str());
        }
        names
    }

    /// Get the effective FontConfig for the given profile, falling back to the
    /// default config values when the profile does not override the field.
    pub fn resolve_font(&self, profile_name: &str, default_config: &Config) -> (f: FontConfig)
        ensures
            f@ == resolved(
                self@.profiles,
                profile_name@,
                |p: ProfileView| p.font,
                default_config@.font,
            ),
    {
        match self.get(profile_name) {
            Some(p) => match &p.font {
                Some(f) => f.clone(),
                None => default_config.font.clone(),
            },
            None => default_config.font.clone(),
        }
    }

    /// Get the effective ColorConfig for the given profile.
    pub fn resolve_colors(&self, profile_name: &str, default_config: &Config) -> (c: ColorConfig)
        ensures
            c@ == resolved(
                self@.profiles,
                profile_name@,
                |p: ProfileView| p.colors,
                default_config@.colors,
            ),
    {
        match self.get(profile_name) {
            Some(p) => match &p.colors {
                Some(c) => c.clone(),
                None => default_config.colors.clone(),
            },
            None => default_config.colors.clone(),
        }
    }

    /// Get the effective TerminalConfig for the given profile.
    pub fn resolve_terminal(&self, profile_name: &str, default_config: &Config) -> (t:
        TerminalConfig)
        ensures
            t@ == resolved(
                self@.profiles,
                profile_name@,
                |p: ProfileView| p.terminal,
                default_config@.terminal,
            ),
    {
        match self.get(profile_name) {
            Some(p) => match &p.terminal {
                Some(t) => t.clone(),
                None => default_config.terminal.clone(),
            },
            None => default_config.terminal.clone(),
        }
    }
}

// ---------------------------------------------------------------------------
// Laws
// ---------------------------------------------------------------------------

/// What `without_named` keeps: no profile of that name, and every other.
proof fn lemma_without_named(ps: Seq<ProfileView>, name: Seq<char>)
    ensures
        forall|i: int|
            0 <= i < without_named(ps, name).len() ==> #[trigger] without_named(ps, name)[i].name
                != name,
        forall|j: int| 0 <= j < ps.len() && ps[j].name != name ==> without_named(ps, name).contains(#[trigger] ps[j]),
    decreases ps.len(),
{
    if ps.len() > 0 {
        lemma_without_named(ps.drop_last(), name);
        let r = without_named(ps.drop_last(), name);
        if ps.last().name != name {
            assert(r.push(ps.last())[r.len() as int] == ps.last());
            assert forall|i: int| 0 <= i < r.push(ps.last()).len() implies #[trigger] r.push(
                ps.last(),
            )[i].name != name by {
                if i < r.len() {
                    assert(r.push(ps.last())[i] == r[i]);
                }
            }
            assert forall|j: int| 0 <= j < ps.len() && ps[j].name != name implies r.push(
                ps.last(),
            ).contains(#[trigger] ps[j]) by {
                if j < ps.len() - 1 {
                    assert(ps.drop_last()[j] == ps[j]);
                    let k = choose|k: int| 0 <= k < r.len() && r[k] == ps[j];
                    assert(r.push(ps.last())[k] == ps[j]);
                } else {
                    assert(r.push(ps.last())[r.len() as int] == ps[j]);
                }
            }
        } else {
            assert forall|j: int| 0 <= j < ps.len() && ps[j].name != name implies r.contains(
                #[trigger] ps[j],
            ) by {
                assert(ps.drop_last()[j] == ps[j]);
            }
        }
    }
}

proof fn lemma_profile_index_from(ps: Seq<ProfileView>, name: Seq<char>, k: int)
    requires
        0 <= k,
    ensures
        profile_index_from(ps, name, k) matches Some(i) ==> k <= i < ps.len() && ps[i].name == name
            && forall|j: int| k <= j < i ==> ps[j].name != name,
        profile_index_from(ps, name, k) is None ==> forall|j: int|
            k <= j < ps.len() ==> ps[j].name != name,
    decreases ps.len() - k,
{
    if k < ps.len() && ps[k].name != name {
        lemma_profile_index_from(ps, name, k + 1);
    }
}

/// Removing a profile by name never removes the default profile.
pub proof fn lemma_remove_keeps_default(m: ProfileManagerView, name: Seq<char>)
    requires
        profile_index(m.profiles, m.default_profile) is Some,
    ensures
        profile_index(
            if name == m.default_profile {
                m.profiles
            } else {
                without_named(m.profiles, name)
            },
            m.default_profile,
        ) is Some,
{
    if name != m.default_profile {
        lemma_profile_index_from(m.profiles, m.default_profile, 0);
        let i = profile_index(m.profiles, m.default_profile).unwrap();
        lemma_without_named(m.profiles, name);
        let w = without_named(m.profiles, name);
        assert(w.contains(m.profiles[i]));
        let k = choose|k: int| 0 <= k < w.len() && w[k] == m.profiles[i];
        lemma_profile_index_from(w, m.default_profile, 0);
        assert(w[k].name == m.default_profile);
    }
}

/// A profile added under a new name is the one found by that name.
pub proof fn lemma_added_profile_found(ps: Seq<ProfileView>, p: ProfileView)
    requires
        profile_index(ps, p.name) is None,
    ensures
        profile_index(ps.push(p), p.name) == Some(ps.len() as int),
{
    lemma_profile_index_from(ps, p.name, 0);
    lemma_profile_index_from(ps.push(p), p.name, 0);
    assert(ps.push(p)[ps.len() as int] == p);
    match profile_index(ps.push(p), p.name) {
        Some(i) => {
            if i < ps.len() {
                assert(ps.push(p)[i] == ps[i]);
            }
        },
        None => {},
    }
}

/// A manager built from a configuration has exactly one profile named
/// "Default", the first, and it carries the configuration's settings.
pub proof fn lemma_loaded_default_unique(c: ConfigView)
    ensures
        ({
            let ps = seq![config_profile(c)] + without_named(c.profiles, default_name());
            &&& profile_index(ps, default_name()) == Some(0int)
            &&& ps[0] == config_profile(c)
            &&& forall|i: int| 0 < i < ps.len() ==> #[trigger] ps[i].name != default_name()
        }),
{
    let w = without_named(c.profiles, default_name());
    let ps = seq![config_profile(c)] + w;
    lemma_without_named(c.profiles, default_name());
    assert forall|i: int| 0 < i < ps.len() implies #[trigger] ps[i].name != default_name() by {
        assert(ps[i] == w[i - 1]);
    }
}

} // verus!
