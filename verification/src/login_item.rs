//! Launch at login: the first-run registration rule, and the answers where the platform
//! offers no login-item service (never enabled, cannot be turned on, nothing to register).
use vstd::prelude::*;

verus! {

/// Whether the app starts at login: never here.
pub fn is_enabled() -> (r: bool)
    ensures
        !r,
{
    false
}

/// Asks to start, or not, at login; reports whether that took effect, which it never does here.
pub fn set(enabled: bool) -> (r: bool)
    ensures
        !r,
{
    false
}

/// Registers the app as a login item on its first run: nothing to do here.
pub fn ensure_registered() {
}

/// What one launch does about the login item, given whether the first-run marker exists and
/// whether the login item is not registered: `(register, write marker)`. Only a launch that
/// finds no marker acts: it registers when the item is not registered, and writes the marker.
pub open spec fn registration(marker_exists: bool, not_registered: bool) -> (bool, bool) {
    (!marker_exists && not_registered, !marker_exists)
}

/// The decision of one launch.
#[derive(Debug)]
pub struct Registration {
    /// Call the service's register.
    pub register: bool,
    /// Write the first-run marker.
    pub write_marker: bool,
}

/// The first-run rule: a launch that finds the marker leaves the login item alone; one that
/// does not registers the item when it is not registered, and writes the marker.
pub fn first_run_registration(marker_exists: bool, not_registered: bool) -> (r: Registration)
    ensures
        (r.register, r.write_marker) == registration(marker_exists, not_registered),
{
    Registration { register: !marker_exists && not_registered, write_marker: !marker_exists }
}

/// Whether the marker exists after launches that found the login item not registered as
/// `not_registered` says, one entry per launch, starting from `marker`.
pub open spec fn marker_after(marker: bool, not_registered: Seq<bool>) -> bool
    decreases not_registered.len(),
{
    if not_registered.len() == 0 {
        marker
    } else {
        let m = marker_after(marker, not_registered.drop_last());
        m || registration(m, not_registered.last()).1
    }
}

/// Which of those launches called register.
pub open spec fn registrations(marker: bool, not_registered: Seq<bool>) -> Seq<bool>
    decreases not_registered.len(),
{
    if not_registered.len() == 0 {
        Seq::empty()
    } else {
        let prev = not_registered.drop_last();
        registrations(marker, prev).push(
            registration(marker_after(marker, prev), not_registered.last()).0,
        )
    }
}

proof fn lemma_marker_written(marker: bool, not_registered: Seq<bool>)
    requires
        not_registered.len() > 0,
    ensures
        marker_after(marker, not_registered),
    decreases not_registered.len(),
{
}

proof fn lemma_registrations(marker: bool, not_registered: Seq<bool>)
    ensures
        registrations(marker, not_registered).len() == not_registered.len(),
        forall|i: int|
            0 <= i < not_registered.len() ==> #[trigger] registrations(marker, not_registered)[i]
                == registration(marker_after(marker, not_registered.take(i)), not_registered[i]).0,
    decreases not_registered.len(),
{
    if not_registered.len() > 0 {
        let prev = not_registered.drop_last();
        lemma_registrations(marker, prev);
        assert forall|i: int| 0 <= i < not_registered.len() implies #[trigger] registrations(
            marker,
            not_registered,
        )[i] == registration(marker_after(marker, not_registered.take(i)), not_registered[i]).0 by {
            if i < prev.len() {
                assert(not_registered.take(i) =~= prev.take(i));
                assert(registrations(marker, not_registered)[i] == registrations(marker, prev)[i]);
            } else {
                assert(not_registered.take(i) =~= prev);
            }
        }
    }
}

/// Across launches the app registers itself at most once, on its first launch, and only when
/// no marker was there: it never turns a login item back on that the user turned off, whatever
/// the item's state at later launches.
pub proof fn law_registers_only_on_first_run(marker: bool, not_registered: Seq<bool>)
    ensures
        registrations(marker, not_registered).len() == not_registered.len(),
        forall|i: int|
            0 < i < not_registered.len() ==> !#[trigger] registrations(marker, not_registered)[i],
        marker ==> forall|i: int|
            0 <= i < not_registered.len() ==> !#[trigger] registrations(marker, not_registered)[i],
{
    lemma_registrations(marker, not_registered);
    assert forall|i: int| 0 < i < not_registered.len() implies !#[trigger] registrations(
        marker,
        not_registered,
    )[i] by {
        lemma_marker_written(marker, not_registered.take(i));
    }
    if marker {
        assert forall|i: int| 0 <= i < not_registered.len() implies !#[trigger] registrations(
            marker,
            not_registered,
        )[i] by {
            lemma_marker_stays(marker, not_registered.take(i));
        }
    }
}

proof fn lemma_marker_stays(marker: bool, not_registered: Seq<bool>)
    requires
        marker,
    ensures
        marker_after(marker, not_registered),
    decreases not_registered.len(),
{
    if not_registered.len() > 0 {
        lemma_marker_stays(marker, not_registered.drop_last());
    }
}

} // verus!
