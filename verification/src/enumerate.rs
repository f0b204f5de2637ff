use vstd::prelude::*;

verus! {

/// Unique serial number of a database definition
pub type Serial = usize;

/// A definition that carries a serial number
pub trait Enumerable {
    /// The serial number of the definition
    spec fn serial(&self) -> Serial;

    /// Whether two definitions agree apart from their serial numbers
    spec fn same_body(self, other: Self) -> bool;

    /// Give the definition a new serial number
    fn enumerate(&mut self, new_serial: Serial)
        ensures
            final(self).serial() == new_serial,
            final(self).same_body(*old(self)),
    ;
}

/// The serial number that follows `n`; the counter wraps around at its end
pub open spec fn gen_step(n: Serial) -> Serial {
    if n == usize::MAX { 0 } else { (n + 1) as usize }
}

/// The next serial number after `k` numbers were taken, starting from `n`
pub open spec fn after_gens(n: Serial, k: nat) -> Serial
    decreases k,
{
    if k == 0 { n } else { gen_step(after_gens(n, (k - 1) as nat)) }
}

/// Law: from a generator whose next number is `v` (a new one, or one just
/// set to `v`), `k` numbers taken in turn are `v`, `v + 1`, ..., `v + k - 1`,
/// where they do not pass the end of the counter
pub proof fn law_gen_sequence(v: Serial, k: nat)
    requires
        v + k <= usize::MAX + 1,
    ensures
        forall|i: nat| i < k ==> #[trigger] after_gens(v, i) == v + i,
    decreases k,
{
    if k > 0 {
        law_gen_sequence(v, (k - 1) as nat);
        let i = (k - 1) as nat;
        if i > 0 {
            assert(after_gens(v, (i - 1) as nat) == v + i - 1);
        }
    }
}

/// Serial generator
#[derive(Debug)]
pub struct SerialGenerator {
    serial: Serial,
}

impl SerialGenerator {
    /// The next serial number that the generator gives
    pub closed spec fn next(&self) -> Serial {
        self.serial
    }

    /// A generator that starts at zero
    pub fn new() -> (g: Self)
        ensures
            g.next() == 0,
    {
        SerialGenerator { serial: 0 }
    }

    /// Continue from the given serial number
    pub fn set(&mut self, value: Serial)
        ensures
            final(self).next() == value,
    {
        self.serial = value;
    }

    /// Take the next serial number; the counter wraps around at its end
    pub fn gen(&mut self) -> (s: Serial)
        ensures
            s == old(self).next(),
            final(self).next() == gen_step(old(self).next()),
    {
        let s = self.serial;
        self.serial = if s == usize::MAX { 0 } else { s + 1 };
        s
    }

    /// Give the definition the next serial number
    pub fn enumerate<E: Enumerable>(&mut self, data: E) -> (r: E)
        ensures
            r.serial() == old(self).next(),
            r.same_body(data),
            final(self).next() == gen_step(old(self).next()),
    {
        let mut data = data;
        let s = self.gen();
        data.enumerate(s);
        data
    }
}

} // verus!
