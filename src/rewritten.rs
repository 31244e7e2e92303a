use vstd::prelude::*;

use crate::casing::push_char;

verus! {

/// The record that `add_numbers` takes.
pub struct AddNumbersArgs {
    pub foo: usize,
    pub bar: usize,
}

/// Adds the two numbers, taken by name.
pub fn add_numbers(args: AddNumbersArgs) -> (r: usize)
    requires
        args.foo + args.bar <= usize::MAX,
    ensures
        r == args.foo + args.bar,
{
    let AddNumbersArgs { foo, bar } = args;
    foo + bar
}

/// The record that `append_elements` takes; it holds borrowed data, so it
/// declares the lifetime `'a`.
pub struct AppendElementsArgs<'a> {
    pub string: &'a str,
    pub slice: &'a [usize],
}

/// The character of the decimal digit `d`.
pub open spec fn digit_char(d: nat) -> char
    recommends
        d < 10,
{
    ((48 + d) as u8) as char
}

/// The decimal text of `n`, without leading zeros.
pub open spec fn decimal(n: nat) -> Seq<char>
    decreases n,
{
    if n < 10 {
        seq![digit_char(n)]
    } else {
        decimal(n / 10) + seq![digit_char(n % 10)]
    }
}

/// Appends the decimal text of `n` to `out`.
fn push_decimal(out: &mut String, n: usize)
    ensures
        final(out)@ == old(out)@ + decimal(n as nat),
    decreases n,
{
    let ghost start = out@;
    if n >= 10 {
        push_decimal(out, n / 10);
    }
    let d: u8 = (n % 10) as u8;
    push_char(out, (48u8 + d) as char);
    assert(out@ =~= start + decimal(n as nat));
}

/// The string, then `, ` and the decimal text of each number, in order.
pub open spec fn appended(s: Seq<char>, numbers: Seq<usize>) -> Seq<char>
    decreases numbers.len(),
{
    if numbers.len() == 0 {
        s
    } else {
        appended(s, numbers.subrange(0, numbers.len() - 1)) + ", "@ + decimal(
            numbers[numbers.len() - 1] as nat,
        )
    }
}

/// Appends each number of the slice to the string, each after `, `
/// (`"foo"` and `[1, 2, 3]` give `"foo, 1, 2, 3"`).
pub fn append_elements(args: AppendElementsArgs) -> (r: String)
    ensures
        r@ == appended(args.string@, args.slice@),
{
    let AppendElementsArgs { string, slice } = args;
    let mut result = String::from_str(string);
    let mut i: usize = 0;
    while i < slice.len()
        invariant
            i <= slice@.len(),
            result@ == appended(string@, slice@.subrange(0, i as int)),
        decreases slice@.len() - i,
    {
        result.append(", ");
        push_decimal(&mut result, slice[i]);
        proof {
            let next = slice@.subrange(0, i + 1);
            assert(next.subrange(0, i as int) =~= slice@.subrange(0, i as int));
        }
        i = i + 1;
    }
    assert(slice@.subrange(0, slice@.len() as int) =~= slice@);
    result
}

} // verus!
