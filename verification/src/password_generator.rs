//! Random passwords over a pool of characters that the caller picks by flags.

use vstd::prelude::*;
use vstd::std_specs::ops::BitOrSpecImpl;

verus! {

/// A class of characters that a password may hold.
#[derive(Clone, Copy, Debug, PartialEq, Eq, Structural)]
pub enum GenFlags {
    LowerCase,
    UpperCase,
    Digits,
    Spe,
}

/// A set of classes, one bit for each.
#[derive(Clone, Copy, Debug, PartialEq, Eq, Structural)]
pub struct GenFlagSet {
    pub bits: u32,
}

/// The bits that stand for a class.
pub const ALL_BITS: u32 = 0b1111;

/// The bit of a class.
pub open spec fn bit_of(flag: GenFlags) -> u32 {
    match flag {
        GenFlags::LowerCase => 0b0001,
        GenFlags::UpperCase => 0b0010,
        GenFlags::Digits => 0b0100,
        GenFlags::Spe => 0b1000,
    }
}

impl GenFlags {
    /// The bit that stands for the class in a set.
    pub fn bit(self) -> (bit: u32)
        ensures
            bit == bit_of(self),
    {
        match self {
            GenFlags::LowerCase => 0b0001,
            GenFlags::UpperCase => 0b0010,
            GenFlags::Digits => 0b0100,
            GenFlags::Spe => 0b1000,
        }
    }
}

impl GenFlagSet {
    /// No class at all.
    pub fn empty() -> (flags: GenFlagSet)
        ensures
            flags.bits == 0,
    {
        GenFlagSet { bits: 0 }
    }

    /// The set with these bits; none where a bit is set that names no class.
    pub fn from_bits(bits: u32) -> (flags: Option<GenFlagSet>)
        ensures
            flags == if bits & !ALL_BITS == 0 {
                Some(GenFlagSet { bits })
            } else {
                None
            },
    {
        if bits & !ALL_BITS == 0 {
            Some(GenFlagSet { bits })
        } else {
            None
        }
    }

    /// The bits of the classes in the set.
    pub fn bits(&self) -> (bits: u32)
        ensures
            bits == self.bits,
    {
        self.bits
    }

    /// Whether the class is in the set.
    pub open spec fn has(self, flag: GenFlags) -> bool {
        self.bits & bit_of(flag) != 0
    }

    /// Whether the class is in the set.
    pub fn contains(&self, flag: GenFlags) -> (b: bool)
        ensures
            b == self.has(flag),
    {
        self.bits & flag.bit() != 0
    }

    /// The classes of both sets.
    pub open spec fn union_spec(self, other: GenFlagSet) -> GenFlagSet {
        GenFlagSet { bits: self.bits | other.bits }
    }

    /// The classes of both sets.
    pub fn union(self, other: GenFlagSet) -> (flags: GenFlagSet)
        ensures
            flags == self.union_spec(other),
    {
        GenFlagSet { bits: self.bits | other.bits }
    }

    /// The set with one class more.
    pub open spec fn with(self, flag: GenFlags) -> GenFlagSet {
        GenFlagSet { bits: self.bits | bit_of(flag) }
    }
}

impl core::ops::BitOr for GenFlags {
    type Output = GenFlagSet;

    fn bitor(self, rhs: GenFlags) -> (flags: GenFlagSet)
        ensures
            flags == (GenFlagSet { bits: bit_of(self) | bit_of(rhs) }),
    {
        GenFlagSet { bits: self.bit() | rhs.bit() }
    }
}

impl BitOrSpecImpl for GenFlags {
    open spec fn obeys_bitor_spec() -> bool {
        true
    }

    open spec fn bitor_req(self, rhs: GenFlags) -> bool {
        true
    }

    open spec fn bitor_spec(self, rhs: GenFlags) -> GenFlagSet {
        GenFlagSet { bits: bit_of(self) | bit_of(rhs) }
    }
}

impl core::ops::BitOr<GenFlags> for GenFlagSet {
    type Output = GenFlagSet;

    fn bitor(self, rhs: GenFlags) -> (flags: GenFlagSet)
        ensures
            flags == self.with(rhs),
    {
        GenFlagSet { bits: self.bits | rhs.bit() }
    }
}

impl BitOrSpecImpl<GenFlags> for GenFlagSet {
    open spec fn obeys_bitor_spec() -> bool {
        true
    }

    open spec fn bitor_req(self, rhs: GenFlags) -> bool {
        true
    }

    open spec fn bitor_spec(self, rhs: GenFlags) -> GenFlagSet {
        self.with(rhs)
    }
}

/// A set with a class added holds that class and what it held before.
pub proof fn lemma_with_has(set: GenFlagSet, added: GenFlags, flag: GenFlags)
    ensures
        set.with(added).has(flag) <==> set.has(flag) || flag == added,
{
    let a = set.bits;
    assert((a | 1u32) & 1u32 != 0) by (bit_vector);
    assert((a | 2u32) & 2u32 != 0) by (bit_vector);
    assert((a | 4u32) & 4u32 != 0) by (bit_vector);
    assert((a | 8u32) & 8u32 != 0) by (bit_vector);
    assert((a | 1u32) & 2u32 == a & 2u32 && (a | 1u32) & 4u32 == a & 4u32 && (a | 1u32) & 8u32 == a
        & 8u32) by (bit_vector);
    assert((a | 2u32) & 1u32 == a & 1u32 && (a | 2u32) & 4u32 == a & 4u32 && (a | 2u32) & 8u32 == a
        & 8u32) by (bit_vector);
    assert((a | 4u32) & 1u32 == a & 1u32 && (a | 4u32) & 2u32 == a & 2u32 && (a | 4u32) & 8u32 == a
        & 8u32) by (bit_vector);
    assert((a | 8u32) & 1u32 == a & 1u32 && (a | 8u32) & 2u32 == a & 2u32 && (a | 8u32) & 4u32 == a
        & 4u32) by (bit_vector);
}

/// The characters from `first` to `last`, both included, in order.
pub open spec fn ascii_range(first: u8, last: u8) -> Seq<char> {
    Seq::new((last - first + 1) as nat, |i: int| ((first + i) as u8) as char)
}

/// The letters `a` to `z`.
pub open spec fn lower_case() -> Seq<char> {
    ascii_range('a' as u8, 'z' as u8)
}

/// The letters `A` to `Z`.
pub open spec fn upper_case() -> Seq<char> {
    ascii_range('A' as u8, 'Z' as u8)
}

/// The digits `0` to `9`.
pub open spec fn digits() -> Seq<char> {
    ascii_range('0' as u8, '9' as u8)
}

/// The punctuation of ASCII: what is printable and neither letter, digit nor space.
pub open spec fn special() -> Seq<char> {
    ascii_range('!' as u8, '/' as u8) + ascii_range(':' as u8, '@' as u8) + ascii_range(
        '[' as u8,
        '`' as u8,
    ) + ascii_range('{' as u8, '~' as u8)
}

/// The pool that the flags stand for: the classes that are set, in the order
/// lower case, upper case, digits, punctuation.
pub open spec fn pool_of(flags: GenFlagSet) -> Seq<char> {
    (if flags.has(GenFlags::LowerCase) {
        lower_case()
    } else {
        Seq::empty()
    }) + (if flags.has(GenFlags::UpperCase) {
        upper_case()
    } else {
        Seq::empty()
    }) + (if flags.has(GenFlags::Digits) {
        digits()
    } else {
        Seq::empty()
    }) + (if flags.has(GenFlags::Spe) {
        special()
    } else {
        Seq::empty()
    })
}

fn push_range(pool: &mut Vec<char>, first: u8, last: u8)
    requires
        first <= last < 128,
    ensures
        final(pool)@ == old(pool)@ + ascii_range(first, last),
{
    let mut c: u8 = first;
    loop
        invariant_except_break
            first <= c <= last < 128,
            pool@ == old(pool)@ + ascii_range(first, last).take(c - first),
        ensures
            pool@ == old(pool)@ + ascii_range(first, last),
        decreases last - c,
    {
        pool.push(c as char);
        assert(pool@ =~= old(pool)@ + ascii_range(first, last).take(c - first + 1));
        if c == last {
            assert(ascii_range(first, last).take(c - first + 1) =~= ascii_range(first, last));
            break;
        }
        c = c + 1;
    }
}

/// The pool of characters for the flags.
pub fn build_pool(flags: GenFlagSet) -> (pool: Vec<char>)
    ensures
        pool@ == pool_of(flags),
{
    let mut pool: Vec<char> = Vec::new();
    if flags.contains(GenFlags::LowerCase) {
        push_range(&mut pool, 'a' as u8, 'z' as u8);
    }
    if flags.contains(GenFlags::UpperCase) {
        push_range(&mut pool, 'A' as u8, 'Z' as u8);
    }
    if flags.contains(GenFlags::Digits) {
        push_range(&mut pool, '0' as u8, '9' as u8);
    }
    if flags.contains(GenFlags::Spe) {
        push_range(&mut pool, '!' as u8, '/' as u8);
        push_range(&mut pool, ':' as u8, '@' as u8);
        push_range(&mut pool, '[' as u8, '`' as u8);
        push_range(&mut pool, '{' as u8, '~' as u8);
    }
    assert(pool@ =~= pool_of(flags));
    pool
}

/// `rand::rngs::ThreadRng`, declared so that a value of it can be passed on;
/// nothing is known of what it holds.
#[verifier::external_type_specification]
#[verifier::external_body]
pub struct ExThreadRng(rand::rngs::ThreadRng);

/// `rand::thread_rng`: the handle to the random number generator of the
/// calling thread. Nothing is claimed of it.
#[verifier::external_body]
fn thread_rng() -> rand::rngs::ThreadRng {
    rand::thread_rng()
}

/// `rand::seq::SliceRandom::choose` on a slice of the pool: nothing where the
/// pool is empty, else one of its characters. Which one is not said.
#[verifier::external_body]
fn choose_from(pool: &Vec<char>, rng: &mut rand::rngs::ThreadRng) -> (choice: Option<char>)
    ensures
        pool@.len() == 0 ==> choice is None,
        pool@.len() > 0 ==> choice is Some && pool@.contains(choice->Some_0),
{
    rand::seq::SliceRandom::choose(pool.as_slice(), rng).copied()
}

/// `String::push`: appends one character.
#[verifier::external_body]
fn push_char(s: &mut String, c: char)
    ensures
        final(s)@ == old(s)@.push(c),
{
    s.push(c);
}

/// The password with one more choice appended; a choice of nothing adds nothing.
pub open spec fn with_choice(password: Seq<char>, choice: Option<char>) -> Seq<char> {
    match choice {
        Some(c) => password.push(c),
        None => password,
    }
}

/// Appends what was chosen to the password.
pub fn push_choice(password: &mut String, choice: Option<char>)
    ensures
        final(password)@ == with_choice(old(password)@, choice),
{
    match choice {
        Some(c) => push_char(password, c),
        None => {},
    }
}

/// A password of `pwd_len` characters, each chosen at random from the pool of
/// the flags; the empty password where the pool is empty.
pub fn gen_pwd(flag: GenFlagSet, pwd_len: u32) -> (password: String)
    ensures
        pool_of(flag).len() == 0 ==> password@.len() == 0,
        pool_of(flag).len() > 0 ==> password@.len() == pwd_len,
        forall|i: int| 0 <= i < password@.len() ==> pool_of(flag).contains(#[trigger] password@[i]),
{
    let pool = build_pool(flag);
    let mut rng = thread_rng();
    let mut password = String::new();
    let mut i: u32 = 0;
    while i < pwd_len
        invariant
            i <= pwd_len,
            pool@ == pool_of(flag),
            pool@.len() == 0 ==> password@.len() == 0,
            pool@.len() > 0 ==> password@.len() == i,
            forall|j: int| 0 <= j < password@.len() ==> pool@.contains(#[trigger] password@[j]),
        decreases pwd_len - i,
    {
        let choice = choose_from(&pool, &mut rng);
        push_choice(&mut password, choice);
        i = i + 1;
    }
    password
}

/// A password for flags given as bits; bits that name no class give the
/// empty set of flags, and with it the empty password.
pub fn gen_pwd_cmd(flag: u32, pwd_len: u32) -> (password: String)
    ensures
        ({
            let flags = if flag & !ALL_BITS == 0 {
                GenFlagSet { bits: flag }
            } else {
                GenFlagSet { bits: 0 }
            };
            &&& pool_of(flags).len() == 0 ==> password@.len() == 0
            &&& pool_of(flags).len() > 0 ==> password@.len() == pwd_len
            &&& forall|i: int|
                0 <= i < password@.len() ==> pool_of(flags).contains(#[trigger] password@[i])
        }),
{
    let flags = match GenFlagSet::from_bits(flag) {
        Some(flags) => flags,
        None => GenFlagSet::empty(),
    };
    gen_pwd(flags, pwd_len)
}

} // verus!
