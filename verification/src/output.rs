//! Monitors as plain data, and the choice of the monitor and mode to drive.
use vstd::prelude::*;

verus! {

/// A display mode as it is shown and requested.
#[derive(Clone, Copy, PartialEq, Eq, Structural, Debug)]
pub struct ModeInfo {
    pub width: u16,
    pub height: u16,
    pub refresh_mhz: u32,
}

/// What of a kernel display mode is read here.
#[derive(Clone, Copy, PartialEq, Eq, Structural, Debug)]
pub struct DrmMode {
    pub width: u16,
    pub height: u16,
    /// Refresh rate in whole hertz.
    pub vrefresh: u32,
}

impl DrmMode {
    /// Whether the refresh rate can be told in millihertz.
    pub open spec fn fits(self) -> bool {
        self.vrefresh * 1000 <= u32::MAX
    }

    /// The mode as it is shown.
    pub open spec fn info(self) -> ModeInfo {
        ModeInfo {
            width: self.width,
            height: self.height,
            refresh_mhz: (self.vrefresh * 1000) as u32,
        }
    }
}

/// The mode `m` as it is shown.
pub fn mode_info(m: DrmMode) -> (r: ModeInfo)
    requires
        m.fits(),
    ensures
        r == m.info(),
        r.width == m.width,
        r.height == m.height,
        r.refresh_mhz == 1000 * m.vrefresh,
{
    ModeInfo { width: m.width, height: m.height, refresh_mhz: m.vrefresh * 1000 }
}

/// A connector as a scan found it: its handle, whether a monitor is connected, and the
/// monitor's EDID identity ("make model serial").
#[derive(Debug)]
pub struct Connector {
    pub handle: u32,
    pub connected: bool,
    pub key: String,
}

/// The mode that a preference asks for.
#[derive(Clone, Copy, PartialEq, Eq, Structural, Debug)]
pub enum ModeRequest {
    /// A mode that the monitor advertises.
    Advertised { width: u16, height: u16, refresh_mhz: u32 },
    /// A mode that the builder makes up.
    Other,
}

/// A per-output preference: the monitor it is for (`None`: any other) and its mode.
#[derive(Debug)]
pub struct Profile {
    pub identity: Option<String>,
    pub mode: Option<ModeRequest>,
}

/// The output preferences.
#[derive(Debug)]
pub struct Preferences {
    pub profiles: Vec<Profile>,
    pub default_mode: Option<ModeRequest>,
}

/// The first position from `i` on whose element satisfies `p`.
pub open spec fn first_from<T>(s: Seq<T>, p: spec_fn(T) -> bool, i: int) -> Option<int>
    decreases s.len() - i,
{
    if i < 0 || i >= s.len() {
        None
    } else if p(s[i]) {
        Some(i)
    } else {
        first_from(s, p, i + 1)
    }
}

/// The first position whose element satisfies `p`.
pub open spec fn first_where<T>(s: Seq<T>, p: spec_fn(T) -> bool) -> Option<int> {
    first_from(s, p, 0)
}

/// What the first position is: it satisfies `p` and none before it does; there is none exactly
/// if no element satisfies `p`.
pub proof fn lemma_first_where<T>(s: Seq<T>, p: spec_fn(T) -> bool)
    ensures
        match first_where(s, p) {
            Some(k) => 0 <= k < s.len() && p(s[k]) && forall|j: int|
                0 <= j < k ==> !p(#[trigger] s[j]),
            None => forall|j: int| 0 <= j < s.len() ==> !p(#[trigger] s[j]),
        },
{
    lemma_first_from(s, p, 0);
}

proof fn lemma_first_from<T>(s: Seq<T>, p: spec_fn(T) -> bool, i: int)
    requires
        0 <= i,
    ensures
        match first_from(s, p, i) {
            Some(k) => i <= k < s.len() && p(s[k]) && forall|j: int|
                i <= j < k ==> !p(#[trigger] s[j]),
            None => forall|j: int| i <= j < s.len() ==> !p(#[trigger] s[j]),
        },
    decreases s.len() - i,
{
    if i < s.len() && !p(s[i]) {
        lemma_first_from(s, p, i + 1);
    }
}

/// Whether a connector is the connected one whose monitor is `key`.
pub open spec fn is_target(key: Seq<char>) -> spec_fn(Connector) -> bool {
    |c: Connector| c.connected && c.key@ == key
}

/// Whether a connector's monitor is `key`.
pub open spec fn is_monitor(key: Seq<char>) -> spec_fn(Connector) -> bool {
    |c: Connector| c.key@ == key
}

/// Whether a connector has this handle.
pub open spec fn has_handle(handle: u32) -> spec_fn(Connector) -> bool {
    |c: Connector| c.handle == handle
}

/// The position of the connected connector whose EDID identity matches `key`.
pub fn find_target(connectors: &Vec<Connector>, key: &String) -> (r: Option<usize>)
    ensures
        match r {
            Some(k) => first_where(connectors@, is_target(key@)) == Some(k as int),
            None => first_where(connectors@, is_target(key@)) is None,
        },
        match r {
            Some(k) => k < connectors.len() && connectors[k as int].connected
                && connectors[k as int].key@ == key@ && forall|j: int|
                0 <= j < k ==> !(#[trigger] connectors[j]).connected || connectors[j].key@ != key@,
            None => forall|j: int|
                0 <= j < connectors.len() ==> !(#[trigger] connectors[j]).connected
                    || connectors[j].key@ != key@,
        },
{
    proof {
        lemma_first_where(connectors@, is_target(key@));
    }
    let mut i: usize = 0;
    while i < connectors.len()
        invariant
            i <= connectors.len(),
            first_where(connectors@, is_target(key@)) == first_from(
                connectors@,
                is_target(key@),
                i as int,
            ),
        decreases connectors.len() - i,
    {
        let c = &connectors[i];
        if c.connected && c.key == *key {
            proof {
                lemma_first_where(connectors@, is_target(key@));
            }
            return Some(i);
        }
        i = i + 1;
    }
    None
}

/// The EDID identity of the connector with this handle.
pub open spec fn key_of(connectors: Seq<Connector>, handle: u32) -> Option<Seq<char>> {
    match first_where(connectors, has_handle(handle)) {
        Some(k) => Some(connectors[k].key@),
        None => None,
    }
}

/// The EDID identity of the connector currently driving the compositor (by handle).
pub fn current_connector_name(connectors: &Vec<Connector>, handle: u32) -> (r: Option<String>)
    ensures
        match r {
            Some(name) => key_of(connectors@, handle) == Some(name@),
            None => key_of(connectors@, handle) is None,
        },
        match r {
            Some(name) => exists|k: int|
                0 <= k < connectors.len() && (#[trigger] connectors[k]).handle == handle && name@
                    == connectors[k].key@ && forall|j: int|
                    0 <= j < k ==> (#[trigger] connectors[j]).handle != handle,
            None => forall|j: int|
                0 <= j < connectors.len() ==> (#[trigger] connectors[j]).handle != handle,
        },
{
    proof {
        lemma_first_where(connectors@, has_handle(handle));
    }
    let mut i: usize = 0;
    while i < connectors.len()
        invariant
            i <= connectors.len(),
            first_where(connectors@, has_handle(handle)) == first_from(
                connectors@,
                has_handle(handle),
                i as int,
            ),
        decreases connectors.len() - i,
    {
        let c = &connectors[i];
        if c.handle == handle {
            proof {
                lemma_first_where(connectors@, has_handle(handle));
            }
            return Some(c.key.clone());
        }
        i = i + 1;
    }
    None
}

/// Whether a profile is for this monitor.
pub open spec fn is_for(key: Seq<char>) -> spec_fn(Profile) -> bool {
    |p: Profile| p.identity matches Some(id) && id@ == key
}

/// Whether a profile is for any other monitor.
pub open spec fn is_general() -> spec_fn(Profile) -> bool {
    |p: Profile| p.identity is None
}

/// The advertised mode that is asked for, if it is one.
pub open spec fn asked_mode(m: Option<ModeRequest>) -> Option<ModeInfo> {
    match m {
        Some(ModeRequest::Advertised { width, height, refresh_mhz }) => Some(
            ModeInfo { width, height, refresh_mhz },
        ),
        _ => None,
    }
}

fn to_info(m: &Option<ModeRequest>) -> (r: Option<ModeInfo>)
    ensures
        r == asked_mode(*m),
{
    match m {
        Some(ModeRequest::Advertised { width, height, refresh_mhz }) => Some(
            ModeInfo { width: *width, height: *height, refresh_mhz: *refresh_mhz },
        ),
        _ => None,
    }
}

/// The position of the profile that counts for monitor `key`: its own, else the general one.
pub open spec fn profile_of(profiles: Seq<Profile>, key: Seq<char>) -> Option<int> {
    match first_where(profiles, is_for(key)) {
        Some(k) => Some(k),
        None => first_where(profiles, is_general()),
    }
}

fn find_profile(profiles: &Vec<Profile>, key: &String) -> (r: Option<usize>)
    ensures
        match r {
            Some(k) => k < profiles.len() && first_where(profiles@, is_for(key@)) == Some(k as int),
            None => first_where(profiles@, is_for(key@)) is None,
        },
{
    let mut i: usize = 0;
    while i < profiles.len()
        invariant
            i <= profiles.len(),
            first_where(profiles@, is_for(key@)) == first_from(
                profiles@,
                is_for(key@),
                i as int,
            ),
        decreases profiles.len() - i,
    {
        if let Some(id) = &profiles[i].identity {
            if *id == *key {
                return Some(i);
            }
        }
        i = i + 1;
    }
    None
}

fn find_general(profiles: &Vec<Profile>) -> (r: Option<usize>)
    ensures
        match r {
            Some(k) => k < profiles.len() && first_where(profiles@, is_general()) == Some(k as int),
            None => first_where(profiles@, is_general()) is None,
        },
{
    let mut i: usize = 0;
    while i < profiles.len()
        invariant
            i <= profiles.len(),
            first_where(profiles@, is_general()) == first_from(profiles@, is_general(), i as int),
        decreases profiles.len() - i,
    {
        if profiles[i].identity.is_none() {
            return Some(i);
        }
        i = i + 1;
    }
    None
}

impl Preferences {
    /// The preferred monitor: the first profile's.
    pub open spec fn preferred(&self) -> Option<Seq<char>> {
        if self.profiles.len() > 0 {
            match self.profiles[0].identity {
                Some(id) => Some(id@),
                None => None,
            }
        } else {
            None
        }
    }

    /// The mode that is asked for monitor `key`.
    pub open spec fn mode_for(&self, key: Seq<char>) -> Option<ModeInfo> {
        let own = match profile_of(self.profiles@, key) {
            Some(k) => asked_mode(self.profiles[k].mode),
            None => None,
        };
        match own {
            Some(m) => Some(m),
            None => asked_mode(self.default_mode),
        }
    }

    /// The preferred-monitor key (the FIRST output profile's identity), if set.
    pub fn preferred_key(&self) -> (r: Option<&String>)
        ensures
            match r {
                Some(key) => self.preferred() == Some(key@),
                None => self.preferred() is None,
            },
            r is Some <==> self.profiles.len() > 0 && self.profiles[0].identity is Some,
            r matches Some(key) ==> key@ == self.profiles[0].identity.unwrap()@,
    {
        if self.profiles.len() > 0 {
            self.profiles[0].identity.as_ref()
        } else {
            None
        }
    }

    /// Resolves the mode to bring the monitor `key` up at: its profile's advertised mode, else
    /// the default one. `None` lets the builder fall back to its own policy.
    pub fn pref_mode(&self, key: &String) -> (r: Option<ModeInfo>)
        ensures
            r == self.mode_for(key@),
    {
        let chosen: Option<usize> = match find_profile(&self.profiles, key) {
            Some(k) => Some(k),
            None => find_general(&self.profiles),
        };
        let own = match chosen {
            Some(k) => to_info(&self.profiles[k].mode),
            None => None,
        };
        match own {
            Some(m) => Some(m),
            None => to_info(&self.default_mode),
        }
    }
}

/// The position of the connector to drive: the preferred monitor's if it is there, else the
/// first.
pub open spec fn picked(connected: Seq<Connector>, preferred: Option<Seq<char>>) -> Option<int> {
    let by_key = match preferred {
        Some(key) => first_where(connected, is_monitor(key)),
        None => None,
    };
    match by_key {
        Some(k) => Some(k),
        None => if connected.len() > 0 {
            Some(0int)
        } else {
            None
        },
    }
}

/// Picks the connector to drive among the connected ones: the preferred monitor if present,
/// else the first connected.
pub fn pick_target(connected: &Vec<Connector>, preferred: Option<&String>) -> (r: Option<usize>)
    ensures
        match r {
            Some(k) => k < connected.len() && picked(
                connected@,
                match preferred {
                    Some(key) => Some(key@),
                    None => None,
                },
            ) == Some(k as int),
            None => connected.len() == 0,
        },
        r is None <==> connected.len() == 0,
        preferred matches Some(key) ==> (forall|k: int|
            0 <= k < connected.len() && (#[trigger] connected[k]).key@ == key@ && (forall|j: int|
                0 <= j < k ==> (#[trigger] connected[j]).key@ != key@) ==> r == Some(k as usize)),
        connected.len() > 0 && (preferred matches Some(key) ==> forall|j: int|
            0 <= j < connected.len() ==> (#[trigger] connected[j]).key@ != key@) ==> r == Some(0usize),
{
    proof {
        if let Some(key) = preferred {
            lemma_first_where(connected@, is_monitor(key@));
        }
    }
    if let Some(key) = preferred {
        let mut i: usize = 0;
        while i < connected.len()
            invariant
                i <= connected.len(),
                preferred == Some(key),
                first_where(connected@, is_monitor(key@)) == first_from(
                    connected@,
                    is_monitor(key@),
                    i as int,
                ),
            decreases connected.len() - i,
        {
            if connected[i].key == *key {
                proof {
                    lemma_first_where(connected@, is_monitor(key@));
                }
                return Some(i);
            }
            i = i + 1;
        }
    }
    if connected.len() > 0 {
        Some(0)
    } else {
        None
    }
}

} // verus!
