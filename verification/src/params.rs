//! The parameters of a request: names with their values, each name once.
//!
//! Names and values are byte strings of less than 2^31 bytes, the longest
//! that the name-value encoding can carry. The setters take `&str` and store
//! the bytes of its UTF-8 encoding.

use crate::meta::{lengths_fit, LONG_FORM};
use vstd::prelude::*;
use vstd::slice::slice_to_vec;
use vstd::string::*;

verus! {

/// Whether no name occurs twice among `pairs`.
pub open spec fn distinct_names(pairs: Seq<(Seq<u8>, Seq<u8>)>) -> bool {
    forall|i: int, j: int|
        0 <= i < pairs.len() && 0 <= j < pairs.len() && i != j ==> (#[trigger] pairs[i]).0 != (
        #[trigger] pairs[j]).0
}

/// The position of `name` among `pairs`, or `None` where it does not occur.
pub open spec fn position_of(pairs: Seq<(Seq<u8>, Seq<u8>)>, name: Seq<u8>) -> Option<int> {
    if exists|i: int| 0 <= i < pairs.len() && (#[trigger] pairs[i]).0 == name {
        Some(choose|i: int| 0 <= i < pairs.len() && (#[trigger] pairs[i]).0 == name)
    } else {
        None
    }
}

/// `pairs` after `name` is given `value`: the value takes the place of the
/// one that `name` had, and a new name goes to the end.
pub open spec fn insert_pair(pairs: Seq<(Seq<u8>, Seq<u8>)>, name: Seq<u8>, value: Seq<u8>) -> Seq<
    (Seq<u8>, Seq<u8>),
> {
    match position_of(pairs, name) {
        Some(i) => pairs.update(i, (name, value)),
        None => pairs.push((name, value)),
    }
}

/// The mapping from names to values that `pairs` spell, a later pair
/// replacing an earlier one of the same name.
pub open spec fn pairs_to_map(pairs: Seq<(Seq<u8>, Seq<u8>)>) -> Map<Seq<u8>, Seq<u8>>
    decreases pairs.len(),
{
    if pairs.len() == 0 {
        Map::empty()
    } else {
        pairs_to_map(pairs.drop_last()).insert(pairs.last().0, pairs.last().1)
    }
}

/// The parameters that `pairs` give when they are set one after the other:
/// each name once, at the position where it first occurs, with the value
/// that it was given last.
pub open spec fn collect_pairs(pairs: Seq<(Seq<u8>, Seq<u8>)>) -> Seq<(Seq<u8>, Seq<u8>)>
    decreases pairs.len(),
{
    if pairs.len() == 0 {
        Seq::empty()
    } else {
        insert_pair(collect_pairs(pairs.drop_last()), pairs.last().0, pairs.last().1)
    }
}

/// Whether two byte strings are equal.
pub fn bytes_eq(a: &[u8], b: &[u8]) -> (r: bool)
    ensures
        r == (a@ == b@),
{
    if a.len() != b.len() {
        return false;
    }
    let mut i: usize = 0;
    while i < a.len()
        invariant
            i <= a@.len(),
            a@.len() == b@.len(),
            forall|k: int| 0 <= k < i ==> a@[k] == b@[k],
        decreases a@.len() - i,
    {
        if a[i] != b[i] {
            return false;
        }
        i = i + 1;
    }
    assert(a@ =~= b@);
    true
}

/// `pairs` after the name `name` is given `value`.
pub open spec fn set_pair(pairs: Seq<(Seq<u8>, Seq<u8>)>, name: &str, value: Seq<u8>) -> Seq<
    (Seq<u8>, Seq<u8>),
> {
    insert_pair(pairs, name.spec_bytes(), value)
}

/// The decimal digits of `n` in ASCII, without leading zeros.
pub open spec fn spec_decimal(n: nat) -> Seq<u8>
    decreases n,
{
    if n < 10 {
        seq![(48 + n) as u8]
    } else {
        spec_decimal(n / 10).push((48 + n % 10) as u8)
    }
}

/// The power of ten with exponent `k`.
pub open spec fn pow10(k: nat) -> nat
    decreases k,
{
    if k == 0 {
        1
    } else {
        10 * pow10((k - 1) as nat)
    }
}

/// A number below the power of ten with exponent `k` has at most `k` digits,
/// and every number has at least one.
pub proof fn lemma_decimal_len(n: nat, k: nat)
    requires
        k >= 1,
        n < pow10(k),
    ensures
        1 <= spec_decimal(n).len() <= k,
    decreases k,
{
    if n >= 10 {
        assert(pow10(1) == 10) by {
            assert(pow10(0) == 1);
        }
        assert(k >= 2);
        lemma_decimal_len(n / 10, (k - 1) as nat);
    }
}

/// A `usize` has at most 20 decimal digits.
pub proof fn lemma_decimal_of_usize(n: usize)
    ensures
        1 <= spec_decimal(n as nat).len() <= 20,
{
    assert(pow10(20) == 100_000_000_000_000_000_000nat) by {
        reveal_with_fuel(pow10, 21);
    }
    lemma_decimal_len(n as nat, 20);
}

/// The decimal digits of `n` in ASCII, without leading zeros.
pub fn decimal(n: usize) -> (digits: Vec<u8>)
    ensures
        digits@ == spec_decimal(n as nat),
        1 <= digits@.len() <= 20,
    decreases n,
{
    proof {
        lemma_decimal_of_usize(n);
    }
    if n < 10 {
        let mut digits: Vec<u8> = Vec::new();
        digits.push((48 + n) as u8);
        assert(digits@ =~= seq![(48 + n) as u8]);
        digits
    } else {
        let mut digits = decimal(n / 10);
        digits.push((48 + n % 10) as u8);
        digits
    }
}

/// The parameters of a request, in the order in which their names were first
/// set.
#[derive(Debug)]
pub struct Params {
    entries: Vec<(Vec<u8>, Vec<u8>)>,
}

impl View for Params {
    type V = Seq<(Seq<u8>, Seq<u8>)>;

    /// The pairs of name and value, in order.
    closed spec fn view(&self) -> Self::V {
        self.entries@.map_values(|e: (Vec<u8>, Vec<u8>)| (e.0@, e.1@))
    }
}

impl Params {
    /// No name occurs twice, and every name and every value is shorter than
    /// 2^31 bytes.
    #[verifier::type_invariant]
    pub open spec fn valid(&self) -> bool {
        distinct_names(self@) && lengths_fit(self@)
    }

    /// The mapping from names to values.
    pub open spec fn as_map(&self) -> Map<Seq<u8>, Seq<u8>> {
        pairs_to_map(self@)
    }

    /// Parameters with no name set.
    pub fn new() -> (p: Self)
        ensures
            p@ == Seq::<(Seq<u8>, Seq<u8>)>::empty(),
    {
        let p = Params { entries: Vec::new() };
        assert(p@ =~= Seq::<(Seq<u8>, Seq<u8>)>::empty());
        p
    }

    /// The number of names set. No name occurs twice, and every name and
    /// every value is shorter than 2^31 bytes.
    pub fn len(&self) -> (n: usize)
        ensures
            n == self@.len(),
            self.valid(),
    {
        proof {
            use_type_invariant(self);
        }
        self.entries.len()
    }

    /// The name and the value at position `i`, each shorter than 2^31
    /// bytes.
    pub fn entry(&self, i: usize) -> (e: (&[u8], &[u8]))
        requires
            i < self@.len(),
        ensures
            e.0@ == self@[i as int].0,
            e.1@ == self@[i as int].1,
            e.0@.len() < LONG_FORM,
            e.1@.len() < LONG_FORM,
    {
        proof {
            use_type_invariant(self);
        }
        (self.entries[i].0.as_slice(), self.entries[i].1.as_slice())
    }

    /// The position of `name`, or `None` where it is not set.
    pub fn position(&self, name: &[u8]) -> (r: Option<usize>)
        ensures
            match r {
                Some(i) => i < self@.len() && self@[i as int].0 == name@ && position_of(
                    self@,
                    name@,
                ) == Some(i as int),
                None => position_of(self@, name@).is_none(),
            },
    {
        proof {
            use_type_invariant(self);
        }
        let mut i: usize = 0;
        while i < self.entries.len()
            invariant
                i <= self@.len(),
                self@.len() == self.entries@.len(),
                distinct_names(self@),
                forall|k: int| 0 <= k < i ==> (#[trigger] self@[k]).0 != name@,
            decreases self@.len() - i,
        {
            if bytes_eq(self.entries[i].0.as_slice(), name) {
                assert(self@[i as int].0 == name@);
                assert(distinct_names(self@));
                return Some(i);
            }
            i = i + 1;
        }
        None
    }

    /// The value of `name`, or `None` where it is not set.
    pub fn get(&self, name: &[u8]) -> (r: Option<&[u8]>)
        ensures
            match r {
                Some(v) => self.as_map().contains_key(name@) && self.as_map()[name@] == v@,
                None => !self.as_map().contains_key(name@),
            },
    {
        proof {
            use_type_invariant(self);
            lemma_pairs_to_map(self@, name@);
        }
        match self.position(name) {
            Some(i) => Some(self.entries[i].1.as_slice()),
            None => None,
        }
    }

    /// These parameters with `name` given the value `value`. A name that
    /// was set keeps its position and loses its old value; a new name goes
    /// to the end. Both `name` and `value` are shorter than 2^31 bytes;
    /// `try_with` tests that.
    pub fn with(self, name: Vec<u8>, value: Vec<u8>) -> (p: Self)
        requires
            name@.len() < LONG_FORM,
            value@.len() < LONG_FORM,
        ensures
            p@ == insert_pair(self@, name@, value@),
            p.as_map() == self.as_map().insert(name@, value@),
    {
        proof {
            use_type_invariant(&self);
            lemma_insert_pair(self@, name@, value@);
            lemma_insert_pair_fits(self@, name@, value@);
        }
        let ghost before = self@;
        let ghost pair = (name@, value@);
        let found = self.position(name.as_slice());
        let mut entries = self.entries;
        match found {
            Some(i) => {
                entries.set(i, (name, value));
            },
            None => {
                entries.push((name, value));
            },
        }
        assert(entries@.map_values(|e: (Vec<u8>, Vec<u8>)| (e.0@, e.1@)) =~= insert_pair(
            before,
            pair.0,
            pair.1,
        ));
        Params { entries }
    }

    /// These parameters with `name` given the value `value`, as `with` gives
    /// them; or, where `name` or `value` holds 2^31 bytes or more, a length
    /// that cannot be written, these parameters unchanged, as an error.
    pub fn try_with(self, name: Vec<u8>, value: Vec<u8>) -> (r: Result<Self, Self>)
        ensures
            name@.len() < LONG_FORM && value@.len() < LONG_FORM ==> {
                &&& r matches Ok(p)
                &&& p@ == insert_pair(self@, name@, value@)
                &&& p.as_map() == self.as_map().insert(name@, value@)
            },
            name@.len() >= LONG_FORM || value@.len() >= LONG_FORM ==> {
                &&& r matches Err(p)
                &&& p@ == self@
            },
    {
        if name.len() < LONG_FORM as usize && value.len() < LONG_FORM as usize {
            Ok(self.with(name, value))
        } else {
            Err(self)
        }
    }

    /// Gives `name` the value `value`, as `with` does.
    pub fn insert(&mut self, name: Vec<u8>, value: Vec<u8>)
        requires
            name@.len() < LONG_FORM,
            value@.len() < LONG_FORM,
        ensures
            final(self)@ == insert_pair(old(self)@, name@, value@),
            final(self).as_map() == old(self).as_map().insert(name@, value@),
    {
        let mut taken = Params::new();
        core::mem::swap(self, &mut taken);
        *self = taken.with(name, value);
    }

    /// Gives `name` the value `value` and returns `true`; or, where `name`
    /// or `value` holds 2^31 bytes or more, changes nothing and returns
    /// `false`.
    pub fn try_insert(&mut self, name: Vec<u8>, value: Vec<u8>) -> (set: bool)
        ensures
            set == (name@.len() < LONG_FORM && value@.len() < LONG_FORM),
            set ==> final(self)@ == insert_pair(old(self)@, name@, value@),
            set ==> final(self).as_map() == old(self).as_map().insert(name@, value@),
            !set ==> final(self)@ == old(self)@,
    {
        if name.len() < LONG_FORM as usize && value.len() < LONG_FORM as usize {
            self.insert(name, value);
            true
        } else {
            false
        }
    }

    /// These parameters with the name `name` given the value `value`, both
    /// stored as the bytes of their UTF-8 encoding. This is the setter for
    /// names that have none of their own, such as the `HTTP_*` names. Both
    /// are shorter than 2^31 bytes; `try_custom` tests that.
    pub fn custom(self, name: &str, value: &str) -> (p: Self)
        requires
            name.spec_bytes().len() < LONG_FORM,
            value.spec_bytes().len() < LONG_FORM,
        ensures
            p@ == set_pair(self@, name, value.spec_bytes()),
    {
        self.with(slice_to_vec(name.as_bytes()), slice_to_vec(value.as_bytes()))
    }

    /// These parameters with the name `name` given the value `value`, as
    /// `custom` gives them; or, where `name` or `value` holds 2^31 bytes or
    /// more, these parameters unchanged, as an error.
    pub fn try_custom(self, name: &str, value: &str) -> (r: Result<Self, Self>)
        ensures
            name.spec_bytes().len() < LONG_FORM && value.spec_bytes().len() < LONG_FORM ==> {
                &&& r matches Ok(p)
                &&& p@ == set_pair(self@, name, value.spec_bytes())
            },
            name.spec_bytes().len() >= LONG_FORM || value.spec_bytes().len() >= LONG_FORM ==> {
                &&& r matches Err(p)
                &&& p@ == self@
            },
    {
        if name.as_bytes().len() < LONG_FORM as usize && value.as_bytes().len()
            < LONG_FORM as usize {
            Ok(self.custom(name, value))
        } else {
            Err(self)
        }
    }

    /// Sets `GATEWAY_INTERFACE`. The value is shorter than 2^31 bytes.
    pub fn gateway_interface(self, value: &str) -> (p: Self)
        requires
            value.spec_bytes().len() < LONG_FORM,
        ensures
            p@ == set_pair(self@, "GATEWAY_INTERFACE", value.spec_bytes()),
    {
        proof {
            reveal_strlit("GATEWAY_INTERFACE");
            is_ascii_spec_bytes("GATEWAY_INTERFACE");
        }
        self.custom("GATEWAY_INTERFACE", value)
    }

    /// Sets `SERVER_PROTOCOL`. The value is shorter than 2^31 bytes.
    pub fn server_protocol(self, value: &str) -> (p: Self)
        requires
            value.spec_bytes().len() < LONG_FORM,
        ensures
            p@ == set_pair(self@, "SERVER_PROTOCOL", value.spec_bytes()),
    {
        proof {
            reveal_strlit("SERVER_PROTOCOL");
            is_ascii_spec_bytes("SERVER_PROTOCOL");
        }
        self.custom("SERVER_PROTOCOL", value)
    }

    /// Sets `REQUEST_METHOD`. The value is shorter than 2^31 bytes.
    pub fn request_method(self, value: &str) -> (p: Self)
        requires
            value.spec_bytes().len() < LONG_FORM,
        ensures
            p@ == set_pair(self@, "REQUEST_METHOD", value.spec_bytes()),
    {
        proof {
            reveal_strlit("REQUEST_METHOD");
            is_ascii_spec_bytes("REQUEST_METHOD");
        }
        self.custom("REQUEST_METHOD", value)
    }

    /// Sets `SCRIPT_FILENAME`. The value is shorter than 2^31 bytes.
    pub fn script_filename(self, value: &str) -> (p: Self)
        requires
            value.spec_bytes().len() < LONG_FORM,
        ensures
            p@ == set_pair(self@, "SCRIPT_FILENAME", value.spec_bytes()),
    {
        proof {
            reveal_strlit("SCRIPT_FILENAME");
            is_ascii_spec_bytes("SCRIPT_FILENAME");
        }
        self.custom("SCRIPT_FILENAME", value)
    }

    /// Sets `SCRIPT_NAME`. The value is shorter than 2^31 bytes.
    pub fn script_name(self, value: &str) -> (p: Self)
        requires
            value.spec_bytes().len() < LONG_FORM,
        ensures
            p@ == set_pair(self@, "SCRIPT_NAME", value.spec_bytes()),
    {
        proof {
            reveal_strlit("SCRIPT_NAME");
            is_ascii_spec_bytes("SCRIPT_NAME");
        }
        self.custom("SCRIPT_NAME", value)
    }

    /// Sets `REQUEST_URI`. The value is shorter than 2^31 bytes.
    pub fn request_uri(self, value: &str) -> (p: Self)
        requires
            value.spec_bytes().len() < LONG_FORM,
        ensures
            p@ == set_pair(self@, "REQUEST_URI", value.spec_bytes()),
    {
        proof {
            reveal_strlit("REQUEST_URI");
            is_ascii_spec_bytes("REQUEST_URI");
        }
        self.custom("REQUEST_URI", value)
    }

    /// Sets `DOCUMENT_ROOT`. The value is shorter than 2^31 bytes.
    pub fn document_root(self, value: &str) -> (p: Self)
        requires
            value.spec_bytes().len() < LONG_FORM,
        ensures
            p@ == set_pair(self@, "DOCUMENT_ROOT", value.spec_bytes()),
    {
        proof {
            reveal_strlit("DOCUMENT_ROOT");
            is_ascii_spec_bytes("DOCUMENT_ROOT");
        }
        self.custom("DOCUMENT_ROOT", value)
    }

    /// Sets `DOCUMENT_URI`. The value is shorter than 2^31 bytes.
    pub fn document_uri(self, value: &str) -> (p: Self)
        requires
            value.spec_bytes().len() < LONG_FORM,
        ensures
            p@ == set_pair(self@, "DOCUMENT_URI", value.spec_bytes()),
    {
        proof {
            reveal_strlit("DOCUMENT_URI");
            is_ascii_spec_bytes("DOCUMENT_URI");
        }
        self.custom("DOCUMENT_URI", value)
    }

    /// Sets `REMOTE_ADDR`. The value is shorter than 2^31 bytes.
    pub fn remote_addr(self, value: &str) -> (p: Self)
        requires
            value.spec_bytes().len() < LONG_FORM,
        ensures
            p@ == set_pair(self@, "REMOTE_ADDR", value.spec_bytes()),
    {
        proof {
            reveal_strlit("REMOTE_ADDR");
            is_ascii_spec_bytes("REMOTE_ADDR");
        }
        self.custom("REMOTE_ADDR", value)
    }

    /// Sets `SERVER_ADDR`. The value is shorter than 2^31 bytes.
    pub fn server_addr(self, value: &str) -> (p: Self)
        requires
            value.spec_bytes().len() < LONG_FORM,
        ensures
            p@ == set_pair(self@, "SERVER_ADDR", value.spec_bytes()),
    {
        proof {
            reveal_strlit("SERVER_ADDR");
            is_ascii_spec_bytes("SERVER_ADDR");
        }
        self.custom("SERVER_ADDR", value)
    }

    /// Sets `SERVER_NAME`. The value is shorter than 2^31 bytes.
    pub fn server_name(self, value: &str) -> (p: Self)
        requires
            value.spec_bytes().len() < LONG_FORM,
        ensures
            p@ == set_pair(self@, "SERVER_NAME", value.spec_bytes()),
    {
        proof {
            reveal_strlit("SERVER_NAME");
            is_ascii_spec_bytes("SERVER_NAME");
        }
        self.custom("SERVER_NAME", value)
    }

    /// Sets `CONTENT_TYPE`. The value is shorter than 2^31 bytes.
    pub fn content_type(self, value: &str) -> (p: Self)
        requires
            value.spec_bytes().len() < LONG_FORM,
        ensures
            p@ == set_pair(self@, "CONTENT_TYPE", value.spec_bytes()),
    {
        proof {
            reveal_strlit("CONTENT_TYPE");
            is_ascii_spec_bytes("CONTENT_TYPE");
        }
        self.custom("CONTENT_TYPE", value)
    }

    /// Sets `REMOTE_PORT` to the decimal digits of `value`.
    pub fn remote_port(self, value: u16) -> (p: Self)
        ensures
            p@ == set_pair(self@, "REMOTE_PORT", spec_decimal(value as nat)),
    {
        proof {
            reveal_strlit("REMOTE_PORT");
            is_ascii_spec_bytes("REMOTE_PORT");
        }
        self.with(slice_to_vec("REMOTE_PORT".as_bytes()), decimal(value as usize))
    }

    /// Sets `SERVER_PORT` to the decimal digits of `value`.
    pub fn server_port(self, value: u16) -> (p: Self)
        ensures
            p@ == set_pair(self@, "SERVER_PORT", spec_decimal(value as nat)),
    {
        proof {
            reveal_strlit("SERVER_PORT");
            is_ascii_spec_bytes("SERVER_PORT");
        }
        self.with(slice_to_vec("SERVER_PORT".as_bytes()), decimal(value as usize))
    }

    /// Sets `CONTENT_LENGTH` to the decimal digits of `value`.
    pub fn content_length(self, value: usize) -> (p: Self)
        ensures
            p@ == set_pair(self@, "CONTENT_LENGTH", spec_decimal(value as nat)),
    {
        proof {
            reveal_strlit("CONTENT_LENGTH");
            is_ascii_spec_bytes("CONTENT_LENGTH");
        }
        self.with(slice_to_vec("CONTENT_LENGTH".as_bytes()), decimal(value as usize))
    }

    /// Hands out the pairs of name and value, in order.
    pub fn into_entries(self) -> (entries: Vec<(Vec<u8>, Vec<u8>)>)
        ensures
            entries@.map_values(|e: (Vec<u8>, Vec<u8>)| (e.0@, e.1@)) == self@,
            distinct_names(self@),
            lengths_fit(self@),
    {
        proof {
            use_type_invariant(&self);
        }
        self.entries
    }
}

impl Default for Params {
    /// Parameters with no name set.
    fn default() -> (p: Self)
        ensures
            p@ == Seq::<(Seq<u8>, Seq<u8>)>::empty(),
    {
        Params::new()
    }
}

/// The map of `pairs` holds a name if and only if the name occurs among
/// them, and where no name occurs twice it holds for each name the value
/// that stands beside it.
pub proof fn lemma_pairs_to_map(pairs: Seq<(Seq<u8>, Seq<u8>)>, name: Seq<u8>)
    ensures
        pairs_to_map(pairs).contains_key(name) <==> position_of(pairs, name).is_some(),
        distinct_names(pairs) ==> forall|i: int|
            0 <= i < pairs.len() && (#[trigger] pairs[i]).0 == name ==> pairs_to_map(pairs)[name]
                == pairs[i].1,
    decreases pairs.len(),
{
    if pairs.len() > 0 {
        let init = pairs.drop_last();
        lemma_pairs_to_map(init, name);
        if position_of(init, name).is_some() {
            let k = position_of(init, name).unwrap();
            assert(pairs[k] == init[k]);
        }
        if position_of(pairs, name).is_some() {
            let k = position_of(pairs, name).unwrap();
            if k < pairs.len() - 1 {
                assert(init[k] == pairs[k]);
            }
        }
        if distinct_names(pairs) {
            assert forall|i: int, j: int|
                0 <= i < init.len() && 0 <= j < init.len() && i != j implies (#[trigger] init[i]).0
                != (#[trigger] init[j]).0 by {
                assert(init[i] == pairs[i]);
                assert(init[j] == pairs[j]);
            }
            assert forall|i: int| 0 <= i < pairs.len() && (#[trigger] pairs[i]).0 == name implies
                pairs_to_map(pairs)[name] == pairs[i].1 by {
                if i < pairs.len() - 1 {
                    assert(init[i] == pairs[i]);
                    assert(pairs[pairs.len() - 1].0 != pairs[i].0);
                }
            }
        }
    }
}

/// Giving a name a value keeps the names distinct, and changes the map of
/// the pairs as an insertion does.
pub proof fn lemma_insert_pair(pairs: Seq<(Seq<u8>, Seq<u8>)>, name: Seq<u8>, value: Seq<u8>)
    requires
        distinct_names(pairs),
    ensures
        distinct_names(insert_pair(pairs, name, value)),
        pairs_to_map(insert_pair(pairs, name, value)) == pairs_to_map(pairs).insert(name, value),
{
    let after = insert_pair(pairs, name, value);
    match position_of(pairs, name) {
        Some(i) => {
            assert forall|a: int, b: int|
                0 <= a < after.len() && 0 <= b < after.len() && a != b implies (
            #[trigger] after[a]).0 != (#[trigger] after[b]).0 by {
                assert(pairs[i].0 == name);
                if a != i {
                    assert(after[a] == pairs[a]);
                }
                if b != i {
                    assert(after[b] == pairs[b]);
                }
            }
            lemma_update_map(pairs, i, value);
        },
        None => {
            assert forall|a: int, b: int|
                0 <= a < after.len() && 0 <= b < after.len() && a != b implies (
            #[trigger] after[a]).0 != (#[trigger] after[b]).0 by {
                if a < pairs.len() {
                    assert(after[a] == pairs[a]);
                }
                if b < pairs.len() {
                    assert(after[b] == pairs[b]);
                }
            }
            assert(after.drop_last() =~= pairs);
        },
    }
}

/// Giving a name a value keeps every name and every value shorter than
/// 2^31 bytes, where the name and the value given are so.
pub proof fn lemma_insert_pair_fits(pairs: Seq<(Seq<u8>, Seq<u8>)>, name: Seq<u8>, value: Seq<u8>)
    requires
        lengths_fit(pairs),
        name.len() < LONG_FORM,
        value.len() < LONG_FORM,
    ensures
        lengths_fit(insert_pair(pairs, name, value)),
{
    let after = insert_pair(pairs, name, value);
    assert forall|i: int| 0 <= i < after.len() implies (#[trigger] after[i]).0.len() < LONG_FORM
        && after[i].1.len() < LONG_FORM by {
        match position_of(pairs, name) {
            Some(k) => {
                if i != k {
                    assert(after[i] == pairs[i]);
                }
            },
            None => {
                if i < pairs.len() {
                    assert(after[i] == pairs[i]);
                }
            },
        }
    }
}

/// Where no name occurs twice, a new value at position `i` changes the map
/// of the pairs as an insertion under the name at `i` does.
proof fn lemma_update_map(pairs: Seq<(Seq<u8>, Seq<u8>)>, i: int, value: Seq<u8>)
    requires
        distinct_names(pairs),
        0 <= i < pairs.len(),
    ensures
        pairs_to_map(pairs.update(i, (pairs[i].0, value))) == pairs_to_map(pairs).insert(
            pairs[i].0,
            value,
        ),
    decreases pairs.len(),
{
    let name = pairs[i].0;
    let after = pairs.update(i, (name, value));
    let init = pairs.drop_last();
    if i == pairs.len() - 1 {
        assert(after.drop_last() =~= init);
        assert(pairs_to_map(after) =~= pairs_to_map(pairs).insert(name, value));
    } else {
        assert forall|a: int, b: int|
            0 <= a < init.len() && 0 <= b < init.len() && a != b implies (#[trigger] init[a]).0 != (
        #[trigger] init[b]).0 by {
            assert(init[a] == pairs[a]);
            assert(init[b] == pairs[b]);
        }
        assert(init[i] == pairs[i]);
        lemma_update_map(init, i, value);
        assert(after.drop_last() =~= init.update(i, (name, value)));
        assert(after.last() == pairs.last());
        assert(pairs[pairs.len() - 1].0 != pairs[i].0);
        assert(pairs_to_map(after) =~= pairs_to_map(pairs).insert(name, value));
    }
}

/// Pairs that are set one after the other give parameters in which no name
/// occurs twice and which map each name to the value that it was given
/// last. Pairs in which no name occurs twice are kept as they are.
pub proof fn lemma_collect_pairs(pairs: Seq<(Seq<u8>, Seq<u8>)>)
    ensures
        distinct_names(collect_pairs(pairs)),
        pairs_to_map(collect_pairs(pairs)) == pairs_to_map(pairs),
        distinct_names(pairs) ==> collect_pairs(pairs) == pairs,
    decreases pairs.len(),
{
    if pairs.len() > 0 {
        let init = pairs.drop_last();
        let last = pairs.last();
        lemma_collect_pairs(init);
        lemma_insert_pair(collect_pairs(init), last.0, last.1);
        if distinct_names(pairs) {
            assert forall|a: int, b: int|
                0 <= a < init.len() && 0 <= b < init.len() && a != b implies (#[trigger] init[a]).0
                != (#[trigger] init[b]).0 by {
                assert(init[a] == pairs[a]);
                assert(init[b] == pairs[b]);
            }
            assert(position_of(init, last.0).is_none()) by {
                if position_of(init, last.0).is_some() {
                    let k = position_of(init, last.0).unwrap();
                    assert(init[k] == pairs[k]);
                    assert(pairs[pairs.len() - 1] == last);
                }
            }
            assert(init.push(last) =~= pairs);
        }
    }
}

} // verus!
