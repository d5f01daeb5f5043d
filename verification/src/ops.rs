//! The host operations scripts call through the codec: small functions on
//! plain decoded values, with exact contracts.

use vstd::prelude::*;

verus! {

broadcast use vstd::std_specs::vec::group_vec_axioms;

/// The sum of a sequence of unsigned words.
pub open spec fn spec_sum(s: Seq<u64>) -> int
    decreases s.len(),
{
    if s.len() == 0 {
        0
    } else {
        spec_sum(s.drop_last()) + s.last()
    }
}

/// One more element extends the sum by exactly that element.
proof fn lemma_sum_take_step(s: Seq<u64>, i: int)
    requires
        0 <= i < s.len(),
    ensures
        spec_sum(s.take(i + 1)) == spec_sum(s.take(i)) + s[i],
{
    assert(s.take(i + 1).last() == s[i]);
    assert(s.take(i + 1).drop_last() =~= s.take(i));
}

/// A prefix never sums to more than the whole: the elements are unsigned.
proof fn lemma_sum_take_le(s: Seq<u64>, i: int)
    requires
        0 <= i <= s.len(),
    ensures
        spec_sum(s.take(i)) <= spec_sum(s),
        spec_sum(s.take(i)) >= 0,
    decreases s.len() - i,
{
    lemma_sum_nonneg(s.take(i));
    if i == s.len() {
        assert(s.take(i) =~= s);
    } else {
        lemma_sum_take_step(s, i);
        lemma_sum_take_le(s, i + 1);
    }
}

proof fn lemma_sum_nonneg(s: Seq<u64>)
    ensures
        spec_sum(s) >= 0,
    decreases s.len(),
{
    if s.len() > 0 {
        lemma_sum_nonneg(s.drop_last());
    }
}

/// Adds a list of words up.
#[verifier::loop_isolation(false)]
pub fn sum(args: Vec<u64>) -> (r: u64)
    requires
        spec_sum(args@) <= u64::MAX,
    ensures
        r == spec_sum(args@),
{
    let mut acc: u64 = 0;
    let mut i: usize = 0;
    proof {
        assert(args@.take(0) =~= Seq::<u64>::empty());
    }
    while i < args.len()
        invariant
            i <= args@.len(),
            acc == spec_sum(args@.take(i as int)),
        decreases args@.len() - i,
    {
        proof {
            lemma_sum_take_step(args@, i as int);
            lemma_sum_take_le(args@, i as int + 1);
        }
        acc = acc + args[i];
        i = i + 1;
    }
    proof {
        assert(args@.take(args@.len() as int) =~= args@);
    }
    acc
}

/// The two addends of [`add`].
pub struct AddArgs {
    pub a: u32,
    pub b: u32,
}

/// Adds the two words of an argument pair.
pub fn add(args: AddArgs) -> (r: u32)
    requires
        args.a + args.b <= u32::MAX,
    ensures
        r == args.a + args.b,
{
    args.a + args.b
}

/// A person record, as scripts exchange it with the host.
pub struct Person {
    pub first_name: String,
    pub last_name: String,
    pub age: u8,
}

/// The Unicode uppercasing of a character sequence, as the standard library
/// computes it from the characters alone.
pub uninterp spec fn upper_of(s: Seq<char>) -> Seq<char>;

/// Relies on str::to_uppercase: the Unicode uppercase of the string,
/// a function of its characters alone; an empty string stays empty.
#[verifier::external_body]
fn to_uppercase_str(s: &String) -> (r: String)
    ensures
        r@ == upper_of(s@),
        s@.len() == 0 ==> r@.len() == 0,
{
    s.to_uppercase()
}

/// One character of an ASCII-uppercased string: an ASCII lowercase letter
/// loses 0x20, everything else is kept as it is.
pub open spec fn ascii_upper_pair(lo: char, up: char) -> bool {
    if 97 <= lo as u32 <= 122 {
        up as u32 == lo as u32 - 0x20
    } else {
        up == lo
    }
}

/// Relies on str::to_ascii_uppercase: same length, and each character is
/// the ASCII uppercase of the original character.
#[verifier::external_body]
fn to_ascii_uppercase_str(s: &String) -> (r: String)
    ensures
        r@.len() == s@.len(),
        forall|i: int| 0 <= i < s@.len() ==> ascii_upper_pair(s@[i], #[trigger] r@[i]),
{
    s.to_ascii_uppercase()
}

/// Promotes a person: both names uppercased (the first with full Unicode
/// case mapping, the last ASCII-only, as the record's convention has it) and
/// the age up by one.
pub fn promote(args: Person) -> (r: Person)
    requires
        args.age < 255,
    ensures
        r.first_name@ == upper_of(args.first_name@),
        r.last_name@.len() == args.last_name@.len(),
        forall|i: int|
            0 <= i < args.last_name@.len() ==> ascii_upper_pair(
                args.last_name@[i],
                #[trigger] r.last_name@[i],
            ),
        r.age == args.age + 1,
{
    Person {
        first_name: to_uppercase_str(&args.first_name),
        last_name: to_ascii_uppercase_str(&args.last_name),
        age: args.age + 1,
    }
}

} // verus!
