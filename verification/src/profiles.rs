//! Saved profiles: named sets of settings and instances.
use vstd::prelude::*;
use crate::codec::{new_uuid, uuid_to_string, unix_now_secs};
use crate::settings::AppSettings;
use crate::text::{chars_of, chars_eq};

verus! {

broadcast use vstd::string::group_string_axioms;

#[derive(Debug)]
pub struct Profile {
    pub id: String,
    pub name: String,
    pub description: Option<String>,
    pub settings: AppSettings,
    pub instances: Vec<String>,
    pub created_at: u64,
    pub updated_at: u64,
}

#[derive(Debug)]
pub struct SaveProfileRequest {
    pub id: Option<String>,
    pub name: String,
    pub description: Option<String>,
    pub settings: AppSettings,
    pub instances: Vec<String>,
}

#[derive(Debug, Clone, Copy, PartialEq, Eq, Structural)]
pub enum ProfileError {
    NotFound,
}

/// Seconds since the Unix epoch, from the system clock.
pub fn unix_ts() -> (r: u64) {
    unix_now_secs()
}

/// The position of the first profile with identifier `id`.
pub fn get_profile(profiles: &Vec<Profile>, id: &str) -> (r: Option<usize>)
    ensures
        match r {
            Some(i) => i < profiles@.len() && profiles@[i as int].id@ == id@ && forall|k: int|
                0 <= k < i ==> profiles@[k].id@ != id@,
            None => forall|k: int| 0 <= k < profiles@.len() ==> profiles@[k].id@ != id@,
        },
{
    let idv = chars_of(id);
    let mut i: usize = 0;
    while i < profiles.len()
        invariant
            i <= profiles@.len(),
            idv@ == id@,
            forall|k: int| 0 <= k < i ==> profiles@[k].id@ != id@,
        decreases profiles.len() - i,
    {
        let x = chars_of(profiles[i].id.as_str());
        if chars_eq(&x, &idv) {
            return Some(i);
        }
        i = i + 1;
    }
    None
}

/// Save a profile. With an identifier, that profile is updated and its
/// update time set (an unknown identifier is refused); without one, a new
/// profile with a fresh identifier is appended, created and updated now.
/// Returns its position.
pub fn upsert_profile(profiles: &mut Vec<Profile>, req: SaveProfileRequest) -> (r: Result<usize, ProfileError>)
    ensures
        match req.id {
            Some(id) => match r {
                Ok(i) => {
                    &&& i < old(profiles)@.len()
                    &&& old(profiles)@[i as int].id@ == id@
                    &&& forall|k: int| 0 <= k < i ==> old(profiles)@[k].id@ != id@
                    &&& final(profiles)@ == old(profiles)@.update(i as int, Profile {
                        name: req.name,
                        description: req.description,
                        settings: req.settings,
                        instances: req.instances,
                        updated_at: final(profiles)@[i as int].updated_at,
                        ..old(profiles)@[i as int]
                    })
                },
                Err(e) => e == ProfileError::NotFound && final(profiles)@ == old(profiles)@
                    && forall|k: int| 0 <= k < old(profiles)@.len() ==> old(profiles)@[k].id@ != id@,
            },
            None => r matches Ok(i) && i == old(profiles)@.len() && final(profiles)@.drop_last()
                == old(profiles)@ && final(profiles)@.len() == i + 1 && final(profiles)@[i as int].name
                == req.name && final(profiles)@[i as int].description == req.description
                && final(profiles)@[i as int].settings == req.settings && final(profiles)@[i as int].instances
                == req.instances && final(profiles)@[i as int].created_at == final(profiles)@[i as int].updated_at,
        },
{
    let now = unix_ts();
    match &req.id {
        Some(id) => {
            match get_profile(profiles, id.as_str()) {
                None => Err(ProfileError::NotFound),
                Some(i) => {
                    let mut p = profiles.remove(i);
                    p.name = req.name;
                    p.description = req.description;
                    p.settings = req.settings;
                    p.instances = req.instances;
                    p.updated_at = now;
                    profiles.insert(i, p);
                    assert(profiles@ =~= old(profiles)@.update(i as int, profiles@[i as int]));
                    Ok(i)
                },
            }
        },
        None => {
            profiles.push(Profile {
                id: uuid_to_string(new_uuid()),
                name: req.name,
                description: req.description,
                settings: req.settings,
                instances: req.instances,
                created_at: now,
                updated_at: now,
            });
            assert(profiles@.drop_last() =~= old(profiles)@);
            Ok(profiles.len() - 1)
        },
    }
}

/// The profiles other than those with identifier `id`.
pub open spec fn other_profile(id: Seq<char>) -> spec_fn(Profile) -> bool {
    |p: Profile| p.id@ != id
}

/// Delete the profiles with identifier `id`; the others keep their order.
/// Refused when there is none.
pub fn delete_profile(profiles: &mut Vec<Profile>, id: &str) -> (r: Result<(), ProfileError>)
    ensures
        r is Err <==> forall|k: int| 0 <= k < old(profiles)@.len() ==> old(profiles)@[k].id@ != id@,
        r is Err ==> r == Err::<(), ProfileError>(ProfileError::NotFound) && final(profiles)@ == old(profiles)@,
        r is Ok ==> final(profiles)@ == old(profiles)@.filter(other_profile(id@)),
{
    if get_profile(profiles, id).is_none() {
        return Err(ProfileError::NotFound);
    }
    let idv = chars_of(id);
    let ghost orig = profiles@;
    let ghost keep = other_profile(id@);
    let mut kept: Vec<Profile> = Vec::new();
    let mut all: Vec<Profile> = Vec::new();
    std::mem::swap(&mut all, profiles);
    let mut i: usize = 0;
    let n = all.len();
    proof {
        reveal(Seq::filter);
        assert(orig.take(0) =~= Seq::<Profile>::empty());
    }
    while i < n
        invariant
            n == orig.len(),
            all@.len() == n - i,
            forall|k: int| 0 <= k < all@.len() ==> all@[k] == orig[k + i],
            idv@ == id@,
            keep == other_profile(id@),
            kept@ == orig.take(i as int).filter(keep),
        decreases n - i,
    {
        let x = all.remove(0);
        let xv = chars_of(x.id.as_str());
        proof {
            reveal(Seq::filter);
            assert(orig.take(i + 1).drop_last() =~= orig.take(i as int));
            assert(orig.take(i + 1).last() == x);
        }
        if !chars_eq(&xv, &idv) {
            kept.push(x);
        }
        i = i + 1;
    }
    assert(orig.take(n as int) =~= orig);
    *profiles = kept;
    Ok(())
}

} // verus!
