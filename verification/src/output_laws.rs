//! What the choice of the monitor and mode comes to, in terms of the scan and the preferences.
use vstd::prelude::*;

use crate::output::{
    first_where, is_for, is_general, is_monitor, is_target, has_handle, key_of, lemma_first_where,
    picked, Connector, DrmMode, ModeInfo, ModeRequest, Preferences,
};

verus! {

/// A mode is shown in its size, at its rate in millihertz.
pub proof fn lemma_mode_shown(m: DrmMode)
    requires
        m.vrefresh * 1000 <= u32::MAX,
    ensures
        m.fits(),
        m.info().width == m.width,
        m.info().height == m.height,
        m.info().refresh_mhz == 1000 * m.vrefresh,
{
}

/// The target is the first connector that is connected and whose monitor has the key.
pub proof fn lemma_target(connectors: Seq<Connector>, key: Seq<char>)
    ensures
        match first_where(connectors, is_target(key)) {
            Some(k) => 0 <= k < connectors.len() && connectors[k].connected && connectors[k].key@
                == key && forall|j: int|
                0 <= j < k ==> !(#[trigger] connectors[j]).connected || connectors[j].key@ != key,
            None => forall|j: int|
                0 <= j < connectors.len() ==> !(#[trigger] connectors[j]).connected
                    || connectors[j].key@ != key,
        },
{
    lemma_first_where(connectors, is_target(key));
}

/// A handle is named by the first connector that has it, connected or not.
pub proof fn lemma_named(connectors: Seq<Connector>, handle: u32)
    ensures
        match key_of(connectors, handle) {
            Some(name) => exists|k: int|
                0 <= k < connectors.len() && (#[trigger] connectors[k]).handle == handle
                    && connectors[k].key@ == name && forall|j: int|
                    0 <= j < k ==> (#[trigger] connectors[j]).handle != handle,
            None => forall|j: int|
                0 <= j < connectors.len() ==> (#[trigger] connectors[j]).handle != handle,
        },
{
    lemma_first_where(connectors, has_handle(handle));
}

/// What is picked is the first connector of the preferred monitor, else the first of all.
pub proof fn lemma_picked(connected: Seq<Connector>, preferred: Option<Seq<char>>)
    ensures
        picked(connected, preferred) is None <==> connected.len() == 0,
        picked(connected, preferred) matches Some(k) ==> {
            &&& 0 <= k < connected.len()
            &&& (preferred matches Some(key) && connected[k].key@ == key) || k == 0
            &&& preferred matches Some(key) ==> (forall|j: int|
                0 <= j < connected.len() && (#[trigger] connected[j]).key@ == key ==> k <= j
                    && connected[k].key@ == key)
        },
{
    if let Some(key) = preferred {
        lemma_first_where(connected, is_monitor(key));
    }
}

/// The preferred monitor is the one that the first profile names, if it names one.
pub proof fn lemma_preferred(prefs: Preferences)
    ensures
        prefs.preferred() == if prefs.profiles.len() > 0 && prefs.profiles[0].identity is Some {
            Some(prefs.profiles[0].identity.unwrap()@)
        } else {
            None
        },
{
}

/// The mode that is asked for a monitor: the advertised one of the first profile that names the
/// monitor, or where none does, of the first that names none; else the advertised default.
pub proof fn lemma_mode_asked(prefs: Preferences, key: Seq<char>)
    ensures
        forall|k: int|
            0 <= k < prefs.profiles.len() && ((#[trigger] prefs.profiles[k]).identity matches Some(id)
                && id@ == key) && (forall|j: int|
                0 <= j < k ==> !((#[trigger] prefs.profiles[j]).identity matches Some(id) && id@
                    == key)) ==> (match prefs.profiles[k].mode {
                Some(ModeRequest::Advertised { width, height, refresh_mhz }) => prefs.mode_for(key)
                    == Some(ModeInfo { width, height, refresh_mhz }),
                _ => match prefs.default_mode {
                    Some(ModeRequest::Advertised { width, height, refresh_mhz }) => prefs.mode_for(
                        key,
                    ) == Some(ModeInfo { width, height, refresh_mhz }),
                    _ => prefs.mode_for(key) is None,
                },
            }),
        (forall|j: int|
            0 <= j < prefs.profiles.len() ==> !((#[trigger] prefs.profiles[j]).identity matches Some(
                id,
            ) && id@ == key)) ==> forall|k: int|
            0 <= k < prefs.profiles.len() && (#[trigger] prefs.profiles[k]).identity is None && (forall|
                j: int,
            |
                0 <= j < k ==> (#[trigger] prefs.profiles[j]).identity is Some) ==> (match prefs.profiles[k].mode {
                Some(ModeRequest::Advertised { width, height, refresh_mhz }) => prefs.mode_for(key)
                    == Some(ModeInfo { width, height, refresh_mhz }),
                _ => match prefs.default_mode {
                    Some(ModeRequest::Advertised { width, height, refresh_mhz }) => prefs.mode_for(
                        key,
                    ) == Some(ModeInfo { width, height, refresh_mhz }),
                    _ => prefs.mode_for(key) is None,
                },
            }),
        (forall|j: int|
            0 <= j < prefs.profiles.len() ==> ((#[trigger] prefs.profiles[j]).identity matches Some(
                id,
            ) && id@ != key)) ==> (match prefs.default_mode {
            Some(ModeRequest::Advertised { width, height, refresh_mhz }) => prefs.mode_for(key)
                == Some(ModeInfo { width, height, refresh_mhz }),
            _ => prefs.mode_for(key) is None,
        }),
{
    lemma_first_where(prefs.profiles@, is_for(key));
    lemma_first_where(prefs.profiles@, is_general());
    if let Some(m) = first_where(prefs.profiles@, is_for(key)) {
        assert(is_for(key)(prefs.profiles@[m]));
        assert forall|k: int|
            0 <= k < prefs.profiles.len() && ((#[trigger] prefs.profiles[k]).identity matches Some(id)
                && id@ == key) && (forall|j: int|
                0 <= j < k ==> !((#[trigger] prefs.profiles[j]).identity matches Some(id) && id@
                    == key)) implies k == m by {
            if m < k {
                assert(!(prefs.profiles[m].identity matches Some(id) && id@ == key));
            } else if k < m {
                assert(!is_for(key)(prefs.profiles@[k]));
            }
        }
    } else {
        assert forall|j: int| 0 <= j < prefs.profiles.len() implies !((
        #[trigger] prefs.profiles[j]).identity matches Some(id) && id@ == key) by {
            assert(!is_for(key)(prefs.profiles@[j]));
        }
        if let Some(m) = first_where(prefs.profiles@, is_general()) {
            assert(is_general()(prefs.profiles@[m]));
            assert forall|k: int|
                0 <= k < prefs.profiles.len() && (#[trigger] prefs.profiles[k]).identity is None
                    && (forall|j: int|
                    0 <= j < k ==> (#[trigger] prefs.profiles[j]).identity is Some) implies k
                == m by {
                if m < k {
                    assert(prefs.profiles[m].identity is Some);
                } else if k < m {
                    assert(!is_general()(prefs.profiles@[k]));
                }
            }
        } else {
            assert forall|k: int| 0 <= k < prefs.profiles.len() implies (
            #[trigger] prefs.profiles[k]).identity is Some by {
                assert(!is_general()(prefs.profiles@[k]));
            }
        }
    }
}

} // verus!
