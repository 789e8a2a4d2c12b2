//! In-memory caches with a time to live for the printer and USB device
//! listings, so that refreshes in quick succession do not run the listing
//! commands again.

use vstd::prelude::*;

use crate::model::{PrinterInfo, UsbDevice};

verus! {

#[verifier::external_type_specification]
#[verifier::external_body]
pub struct ExInstant(std::time::Instant);

/// `std::time::Instant::now`: a reading of the monotonic clock. Nothing is
/// claimed of its value.
#[verifier::external_body]
fn instant_now() -> std::time::Instant {
    std::time::Instant::now()
}

/// `std::time::Instant::elapsed`: the time since the reading. It depends on
/// the clock; nothing is claimed of it.
#[verifier::external_body]
fn instant_elapsed(t: &std::time::Instant) -> std::time::Duration {
    t.elapsed()
}

/// `std::time::Duration::as_millis`: whole milliseconds of the duration.
/// The duration is opaque here, so nothing is claimed of the number.
#[verifier::external_body]
fn duration_millis(d: &std::time::Duration) -> u128 {
    d.as_millis()
}

/// Values that can be copied into an equal value.
pub trait Duplicate: Sized {
    fn duplicate(&self) -> (r: Self)
        ensures
            r == *self,
    ;
}

impl Duplicate for PrinterInfo {
    fn duplicate(&self) -> (r: Self) {
        PrinterInfo::duplicate(self)
    }
}

impl Duplicate for UsbDevice {
    fn duplicate(&self) -> (r: Self) {
        UsbDevice::duplicate(self)
    }
}

fn copy_all<T: Duplicate>(v: &Vec<T>) -> (r: Vec<T>)
    ensures
        r@ == v@,
{
    let mut r: Vec<T> = Vec::new();
    let mut i: usize = 0;
    while i < v.len()
        invariant
            i <= v@.len(),
            r@ == v@.take(i as int),
        decreases v@.len() - i,
    {
        r.push(v[i].duplicate());
        assert(r@ =~= v@.take(i + 1));
        i += 1;
    }
    assert(v@.take(v@.len() as int) =~= v@);
    r
}

/// A listing kept for `ttl_ms` milliseconds after it was loaded.
pub struct TtlCache<T> {
    entry: Option<(std::time::Instant, Vec<T>)>,
    ttl_ms: u128,
}

impl<T> TtlCache<T> {
    /// The cached listing, if any.
    pub closed spec fn cached(&self) -> Option<Seq<T>> {
        match self.entry {
            Some((_, v)) => Some(v@),
            None => None,
        }
    }

    pub closed spec fn ttl(&self) -> nat {
        self.ttl_ms as nat
    }
}

/// The cache holds a listing younger than its time to live (`age` is how
/// many milliseconds ago it was stored).
pub open spec fn fresh<T>(c: TtlCache<T>, age: Option<u128>) -> bool {
    c.cached() is Some && (age matches Some(a) && a < c.ttl())
}

/// One read of the cache `old`, whose listing is `age` milliseconds old: a
/// fresh listing is returned and the cache left as it is; otherwise the
/// loader's listing is returned and stored (stamped now).
pub open spec fn cache_step<T, F: FnOnce() -> Vec<T>>(
    old: TtlCache<T>,
    new: TtlCache<T>,
    age: Option<u128>,
    loader: F,
    r: Vec<T>,
) -> bool {
    &&& (age is Some <==> old.cached() is Some)
    &&& fresh(old, age) ==> (r@ == old.cached().unwrap() && new == old)
    &&& !fresh(old, age) ==> (loader.ensures((), r) && new.cached() == Some(r@))
    &&& new.ttl() == old.ttl()
}

impl<T: Duplicate> TtlCache<T> {
    pub fn new(ttl_ms: u128) -> (c: Self)
        ensures
            c.cached() is None,
            c.ttl() == ttl_ms,
    {
        TtlCache { entry: None, ttl_ms }
    }

    /// How many milliseconds ago the listing was stored (read from the
    /// monotonic clock); `None` without a listing.
    pub fn age_ms(&self) -> (a: Option<u128>)
        ensures
            a is Some <==> self.cached() is Some,
    {
        match &self.entry {
            Some((ts, _)) => Some(duration_millis(&instant_elapsed(ts))),
            None => None,
        }
    }

    /// Reads the cache whose listing is `age_ms` milliseconds old: a listing
    /// younger than the time to live is returned and the cache left as it
    /// is; otherwise `loader` runs and its listing is stored and returned.
    pub fn get_or_load_aged<F: FnOnce() -> Vec<T>>(&mut self, age_ms: Option<u128>, loader: F) -> (r: Vec<T>)
        requires
            call_requires(loader, ()),
            age_ms is Some <==> old(self).cached() is Some,
        ensures
            cache_step(*old(self), *final(self), age_ms, loader, r),
    {
        let fresh_copy = match (&self.entry, age_ms) {
            (Some((_, data)), Some(age)) => {
                if age < self.ttl_ms {
                    Some(copy_all(data))
                } else {
                    None
                }
            },
            _ => None,
        };
        match fresh_copy {
            Some(d) => d,
            None => {
                let data = loader();
                self.entry = Some((instant_now(), copy_all(&data)));
                data
            },
        }
    }

    /// Returns the cached listing while it is younger than the time to
    /// live; otherwise runs `loader`, caches its result and returns it.
    pub fn get_or_load<F: FnOnce() -> Vec<T>>(&mut self, loader: F) -> (r: Vec<T>)
        requires
            call_requires(loader, ()),
        ensures
            exists|age: Option<u128>| #[trigger] cache_step(*old(self), *final(self), age, loader, r),
    {
        let age = self.age_ms();
        self.get_or_load_aged(age, loader)
    }

    /// Drops the cached listing: the next read loads anew.
    pub fn invalidate(&mut self)
        ensures
            final(self).cached() is None,
            final(self).ttl() == old(self).ttl(),
    {
        self.entry = None;
    }
}

/// The printer listing cache: 5 seconds.
pub fn printer_cache() -> (c: TtlCache<PrinterInfo>)
    ensures
        c.cached() is None,
        c.ttl() == 5000,
{
    TtlCache::new(5000)
}

/// The USB device listing cache: 10 seconds.
pub fn usb_cache() -> (c: TtlCache<UsbDevice>)
    ensures
        c.cached() is None,
        c.ttl() == 10000,
{
    TtlCache::new(10000)
}

/// Reads the printer cache if still valid, or runs `loader` and stores its
/// result. Returns a copy of the listing.
pub fn get_or_load_printers<F: FnOnce() -> Vec<PrinterInfo>>(
    cache: &mut TtlCache<PrinterInfo>,
    loader: F,
) -> (r: Vec<PrinterInfo>)
    requires
        call_requires(loader, ()),
    ensures
        exists|age: Option<u128>| #[trigger] cache_step(*old(cache), *final(cache), age, loader, r),
{
    cache.get_or_load(loader)
}

/// Invalidates the printer cache; call after any change (add, remove,
/// rename, clear).
pub fn invalidate_printers(cache: &mut TtlCache<PrinterInfo>)
    ensures
        final(cache).cached() is None,
        final(cache).ttl() == old(cache).ttl(),
{
    cache.invalidate()
}

/// Reads the USB cache if still valid, or runs `loader` and stores its
/// result.
pub fn get_or_load_usb<F: FnOnce() -> Vec<UsbDevice>>(cache: &mut TtlCache<UsbDevice>, loader: F) -> (r:
    Vec<UsbDevice>)
    requires
        call_requires(loader, ()),
    ensures
        exists|age: Option<u128>| #[trigger] cache_step(*old(cache), *final(cache), age, loader, r),
{
    cache.get_or_load(loader)
}

/// Invalidates the USB cache; call after registering a USB printer.
pub fn invalidate_usb(cache: &mut TtlCache<UsbDevice>)
    ensures
        final(cache).cached() is None,
        final(cache).ttl() == old(cache).ttl(),
{
    cache.invalidate()
}

} // verus!
