//! Arrays of fixed-size binary values, and the debug rendering of one value.
use vstd::prelude::*;
use vstd::string::StringExecFns;

verus! {

/// A sequence of binary values that all have the same number of bytes,
/// stored one after another.
pub struct FixedSizeBinaryArray {
    size: usize,
    values: Vec<u8>,
}

/// The character of a decimal digit.
pub open spec fn digit_char(d: int) -> char {
    if d == 0 {
        '0'
    } else if d == 1 {
        '1'
    } else if d == 2 {
        '2'
    } else if d == 3 {
        '3'
    } else if d == 4 {
        '4'
    } else if d == 5 {
        '5'
    } else if d == 6 {
        '6'
    } else if d == 7 {
        '7'
    } else if d == 8 {
        '8'
    } else {
        '9'
    }
}

/// The decimal digits of `n`, without leading zeros.
pub open spec fn decimal(n: nat) -> Seq<char>
    decreases n,
{
    if n < 10 {
        seq![digit_char(n as int)]
    } else {
        decimal(n / 10).push(digit_char((n % 10) as int))
    }
}

/// The bytes of `s` in decimal, separated by a comma and a space.
pub open spec fn joined(s: Seq<u8>) -> Seq<char>
    decreases s.len(),
{
    if s.len() == 0 {
        Seq::empty()
    } else if s.len() == 1 {
        decimal(s[0] as nat)
    } else {
        joined(s.drop_last()) + seq![',', ' '] + decimal(s.last() as nat)
    }
}

/// The rendering of a binary value: its bytes in decimal, in brackets.
pub open spec fn bracketed(s: Seq<u8>) -> Seq<char> {
    seq!['['] + joined(s) + seq![']']
}

fn digit_str(d: u8) -> (r: &'static str)
    requires
        d < 10,
    ensures
        r@ == seq![digit_char(d as int)],
{
    if d == 0 {
        proof { reveal_strlit("0"); }
        "0"
    } else if d == 1 {
        proof { reveal_strlit("1"); }
        "1"
    } else if d == 2 {
        proof { reveal_strlit("2"); }
        "2"
    } else if d == 3 {
        proof { reveal_strlit("3"); }
        "3"
    } else if d == 4 {
        proof { reveal_strlit("4"); }
        "4"
    } else if d == 5 {
        proof { reveal_strlit("5"); }
        "5"
    } else if d == 6 {
        proof { reveal_strlit("6"); }
        "6"
    } else if d == 7 {
        proof { reveal_strlit("7"); }
        "7"
    } else if d == 8 {
        proof { reveal_strlit("8"); }
        "8"
    } else {
        proof { reveal_strlit("9"); }
        "9"
    }
}

fn write_decimal(v: u8, f: &mut String)
    ensures
        final(f)@ == old(f)@ + decimal(v as nat),
{
    let ghost start = f@;
    if v >= 100 {
        f.append(digit_str(v / 100));
        f.append(digit_str(v / 10 % 10));
        f.append(digit_str(v % 10));
        proof {
            assert(decimal(v as nat / 100) == seq![digit_char((v as nat / 100) as int)]);
            assert(decimal(v as nat / 10) == decimal(v as nat / 100).push(
                digit_char((v as nat / 10 % 10) as int),
            ));
            assert(f@ =~= start + decimal(v as nat));
        }
    } else if v >= 10 {
        f.append(digit_str(v / 10));
        f.append(digit_str(v % 10));
        proof {
            assert(decimal(v as nat / 10) == seq![digit_char((v as nat / 10) as int)]);
            assert(f@ =~= start + decimal(v as nat));
        }
    } else {
        f.append(digit_str(v));
        proof {
            assert(f@ =~= start + decimal(v as nat));
        }
    }
}

impl FixedSizeBinaryArray {
    /// Each value has `size()` bytes, and the bytes make whole values.
    pub closed spec fn wf(&self) -> bool {
        self.size > 0 && self.values@.len() % (self.size as nat) == 0
    }

    /// The number of bytes of each value.
    pub closed spec fn size_spec(&self) -> nat {
        self.size as nat
    }

    /// The number of values.
    pub closed spec fn len_spec(&self) -> nat {
        self.values@.len() / (self.size as nat)
    }

    /// The bytes of value `i`.
    pub closed spec fn value_spec(&self, i: int) -> Seq<u8> {
        self.values@.subrange(i * self.size, (i + 1) * self.size)
    }

    /// An array of values of `size` bytes each, stored in `values`; `None`
    /// where `size` is zero or the bytes do not make whole values.
    pub fn try_new(size: usize, values: Vec<u8>) -> (r: Option<FixedSizeBinaryArray>)
        ensures
            r is Some <==> (size > 0 && values@.len() % (size as nat) == 0),
            r matches Some(a) ==> a.wf() && a.size_spec() == size && a.len_spec() == values@.len()
                / (size as nat) && forall|i: int|
                0 <= i < a.len_spec() ==> #[trigger] a.value_spec(i) == values@.subrange(
                i * size,
                (i + 1) * size,
            ),
    {
        if size == 0 || values.len() % size != 0 {
            None
        } else {
            Some(FixedSizeBinaryArray { size, values })
        }
    }

    /// The number of bytes of each value.
    pub fn size(&self) -> (r: usize)
        ensures
            r == self.size_spec(),
    {
        self.size
    }

    /// The number of values.
    pub fn len(&self) -> (r: usize)
        requires
            self.wf(),
        ensures
            r == self.len_spec(),
    {
        self.values.len() / self.size
    }
}

/// Appends to `f` the bytes of value `index` of `array` in decimal, separated
/// by `", "` and enclosed in brackets: `[1, 2, 3]`.
pub fn write_value(array: &FixedSizeBinaryArray, index: usize, f: &mut String)
    requires
        array.wf(),
        index < array.len_spec(),
    ensures
        final(f)@ == old(f)@ + bracketed(array.value_spec(index as int)),
{
    let size = array.size;
    let total_len = array.values.len();
    let ghost n = total_len as int;
    proof {
        assert((index as int + 1) * (size as int) <= n) by (nonlinear_arith)
            requires
                index < n / (size as int),
                size > 0,
                n >= 0,
        ;
        assert((index as int + 1) * (size as int) == index as int * size as int + size as int)
            by (nonlinear_arith);
        assert(index as int * size as int <= n);
    }
    let start = index * size;
    let ghost value = array.value_spec(index as int);
    let ghost before = f@;
    proof {
        reveal_strlit("[");
        reveal_strlit("]");
        reveal_strlit(", ");
        assert(value.take(0) =~= Seq::<u8>::empty());
    }
    f.append("[");
    let mut j: usize = 0;
    while j < size
        invariant
            j <= size,
            size == array.size,
            start == index * size,
            start as int + size as int <= array.values@.len(),
            array.values@.len() <= usize::MAX,
            value == array.values@.subrange(start as int, start + size),
            f@ == before + seq!['['] + joined(value.take(j as int)),
        decreases size - j,
    {
        let ghost mid = f@;
        if j > 0 {
            f.append(", ");
        }
        write_decimal(array.values[start + j], f);
        proof {
            reveal_strlit(", ");
            let t = value.take(j as int + 1);
            assert(t.drop_last() =~= value.take(j as int));
            assert(t.last() == array.values@[start + j]);
            if j == 0 {
                assert(f@ =~= before + seq!['['] + joined(t));
            } else {
                assert(joined(t) == joined(value.take(j as int)) + seq![',', ' '] + decimal(
                    t.last() as nat,
                ));
                assert(f@ =~= before + seq!['['] + joined(t));
            }
        }
        j += 1;
    }
    f.append("]");
    proof {
        assert(value.take(size as int) =~= value);
        assert(f@ =~= before + bracketed(value));
    }
}

} // verus!
