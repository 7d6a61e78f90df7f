//! Typed argument serialization: values turn themselves into raw wire
//! arguments (opaque byte strings) appended to a command's argument list.

use vstd::prelude::*;
use vstd::slice::slice_to_vec;
use vstd::utf8::encode_utf8;
use crate::digits::{dec_int, format_i64, format_u64};

verus! {

/// Ordered list of raw wire arguments. The list only grows: arguments are
/// appended, never removed or rewritten.
pub struct CommandArgs {
    items: Vec<Vec<u8>>,
}

impl View for CommandArgs {
    type V = Seq<Seq<u8>>;

    closed spec fn view(&self) -> Seq<Seq<u8>> {
        Seq::new(self.items@.len(), |i: int| self.items@[i]@)
    }
}

impl CommandArgs {
    pub fn new() -> (r: Self)
        ensures
            r@ == Seq::<Seq<u8>>::empty(),
    {
        let r = CommandArgs { items: Vec::new() };
        proof {
            assert(r@ =~= Seq::<Seq<u8>>::empty());
        }
        r
    }

    /// Append one raw argument, copied verbatim (binary-safe).
    pub fn write_arg(&mut self, arg: &[u8])
        ensures
            final(self)@ == old(self)@.push(arg@),
    {
        let a = slice_to_vec(arg);
        self.items.push(a);
        proof {
            assert(self@ =~= old(self)@.push(arg@));
        }
    }

    /// The running argument count; always equal to the number of arguments
    /// actually appended.
    pub fn len(&self) -> (n: usize)
        ensures
            n == self@.len(),
    {
        self.items.len()
    }

    /// The running count can always be reported: it fits the size type.
    pub proof fn lemma_len_fits(&self)
        ensures
            self@.len() <= usize::MAX as nat,
    {
        broadcast use vstd::std_specs::vec::axiom_spec_len;

        assert(vstd::std_specs::vec::spec_vec_len(&self.items) == self.items@.len());
    }

    /// The argument at index `i`.
    pub fn get(&self, i: usize) -> (r: &Vec<u8>)
        requires
            i < self@.len(),
        ensures
            r@ == self@[i as int],
    {
        &self.items[i]
    }
}

/// Types compatible with command arguments: a value appends itself as zero
/// or more raw arguments (`args_view` says which) and reports their number.
pub trait ToArgs {
    /// The exact sequence of raw arguments this value serializes to.
    spec fn args_view(&self) -> Seq<Seq<u8>>;

    /// Append this value's arguments to `args`.
    fn write_args(&self, args: &mut CommandArgs)
        ensures
            final(args)@ == old(args)@ + self.args_view(),
    ;

    /// How many raw arguments `write_args` appends. The count is only
    /// representable when it fits the platform's size type.
    fn num_args(&self) -> (n: usize)
        requires
            self.args_view().len() <= usize::MAX as nat,
        ensures
            n == self.args_view().len(),
    ;
}

/// The raw arguments that a sequence of values serializes to, in order.
pub open spec fn args_view_of_seq<T: ToArgs>(s: Seq<T>) -> Seq<Seq<u8>>
    decreases s.len(),
{
    if s.len() == 0 {
        Seq::empty()
    } else {
        s[0].args_view() + args_view_of_seq(s.drop_first())
    }
}

/// Splitting a sequence splits its serialized arguments at the same point.
pub proof fn lemma_args_view_of_seq_concat<T: ToArgs>(a: Seq<T>, b: Seq<T>)
    ensures
        args_view_of_seq(a + b) == args_view_of_seq(a) + args_view_of_seq(b),
    decreases a.len(),
{
    if a.len() == 0 {
        assert(a + b =~= b);
        assert(args_view_of_seq(a) + args_view_of_seq(b) =~= args_view_of_seq(b));
    } else {
        lemma_args_view_of_seq_concat(a.drop_first(), b);
        assert((a + b).drop_first() =~= a.drop_first() + b);
        assert((a + b)[0] == a[0]);
        assert(args_view_of_seq(a + b) =~= args_view_of_seq(a) + args_view_of_seq(b));
    }
}

/// Serializing one more element appends exactly that element's arguments.
pub proof fn lemma_args_view_of_seq_take_succ<T: ToArgs>(s: Seq<T>, i: int)
    requires
        0 <= i < s.len(),
    ensures
        args_view_of_seq(s.take(i + 1)) == args_view_of_seq(s.take(i)) + s[i].args_view(),
{
    assert(s.take(i + 1) =~= s.take(i) + seq![s[i]]);
    lemma_args_view_of_seq_concat(s.take(i), seq![s[i]]);
    assert(seq![s[i]].drop_first() =~= Seq::<T>::empty());
    assert(seq![s[i]][0] == s[i]);
    assert(args_view_of_seq(Seq::<T>::empty()) =~= Seq::<Seq<u8>>::empty());
    assert(args_view_of_seq(seq![s[i]]) =~= s[i].args_view() + Seq::<Seq<u8>>::empty());
    assert(args_view_of_seq(seq![s[i]]) =~= s[i].args_view());
}

impl ToArgs for i8 {
    open spec fn args_view(&self) -> Seq<Seq<u8>> {
        seq![dec_int(*self as int)]
    }

    fn write_args(&self, args: &mut CommandArgs) {
        let bytes = format_i64(*self as i64);
        args.write_arg(bytes.as_slice());
        proof {
            assert(args@ =~= old(args)@ + self.args_view());
        }
    }

    fn num_args(&self) -> (n: usize) {
        1
    }
}

impl ToArgs for i16 {
    open spec fn args_view(&self) -> Seq<Seq<u8>> {
        seq![dec_int(*self as int)]
    }

    fn write_args(&self, args: &mut CommandArgs) {
        let bytes = format_i64(*self as i64);
        args.write_arg(bytes.as_slice());
        proof {
            assert(args@ =~= old(args)@ + self.args_view());
        }
    }

    fn num_args(&self) -> (n: usize) {
        1
    }
}

impl ToArgs for i32 {
    open spec fn args_view(&self) -> Seq<Seq<u8>> {
        seq![dec_int(*self as int)]
    }

    fn write_args(&self, args: &mut CommandArgs) {
        let bytes = format_i64(*self as i64);
        args.write_arg(bytes.as_slice());
        proof {
            assert(args@ =~= old(args)@ + self.args_view());
        }
    }

    fn num_args(&self) -> (n: usize) {
        1
    }
}

impl ToArgs for i64 {
    open spec fn args_view(&self) -> Seq<Seq<u8>> {
        seq![dec_int(*self as int)]
    }

    fn write_args(&self, args: &mut CommandArgs) {
        let bytes = format_i64(*self);
        args.write_arg(bytes.as_slice());
        proof {
            assert(args@ =~= old(args)@ + self.args_view());
        }
    }

    fn num_args(&self) -> (n: usize) {
        1
    }
}

impl ToArgs for isize {
    open spec fn args_view(&self) -> Seq<Seq<u8>> {
        seq![dec_int(*self as int)]
    }

    fn write_args(&self, args: &mut CommandArgs) {
        let bytes = format_i64(*self as i64);
        args.write_arg(bytes.as_slice());
        proof {
            assert(args@ =~= old(args)@ + self.args_view());
        }
    }

    fn num_args(&self) -> (n: usize) {
        1
    }
}

impl ToArgs for u16 {
    open spec fn args_view(&self) -> Seq<Seq<u8>> {
        seq![dec_int(*self as int)]
    }

    fn write_args(&self, args: &mut CommandArgs) {
        let bytes = format_u64(*self as u64);
        args.write_arg(bytes.as_slice());
        proof {
            assert(args@ =~= old(args)@ + self.args_view());
        }
    }

    fn num_args(&self) -> (n: usize) {
        1
    }
}

impl ToArgs for u32 {
    open spec fn args_view(&self) -> Seq<Seq<u8>> {
        seq![dec_int(*self as int)]
    }

    fn write_args(&self, args: &mut CommandArgs) {
        let bytes = format_u64(*self as u64);
        args.write_arg(bytes.as_slice());
        proof {
            assert(args@ =~= old(args)@ + self.args_view());
        }
    }

    fn num_args(&self) -> (n: usize) {
        1
    }
}

impl ToArgs for u64 {
    open spec fn args_view(&self) -> Seq<Seq<u8>> {
        seq![dec_int(*self as int)]
    }

    fn write_args(&self, args: &mut CommandArgs) {
        let bytes = format_u64(*self);
        args.write_arg(bytes.as_slice());
        proof {
            assert(args@ =~= old(args)@ + self.args_view());
        }
    }

    fn num_args(&self) -> (n: usize) {
        1
    }
}

impl ToArgs for usize {
    open spec fn args_view(&self) -> Seq<Seq<u8>> {
        seq![dec_int(*self as int)]
    }

    fn write_args(&self, args: &mut CommandArgs) {
        let bytes = format_u64(*self as u64);
        args.write_arg(bytes.as_slice());
        proof {
            assert(args@ =~= old(args)@ + self.args_view());
        }
    }

    fn num_args(&self) -> (n: usize) {
        1
    }
}

impl ToArgs for bool {
    open spec fn args_view(&self) -> Seq<Seq<u8>> {
        if *self {
            seq![seq![49u8]]
        } else {
            seq![seq![48u8]]
        }
    }

    fn write_args(&self, args: &mut CommandArgs) {
        let byte: u8 = if *self { 49 } else { 48 };
        let mut bytes: Vec<u8> = Vec::new();
        bytes.push(byte);
        args.write_arg(bytes.as_slice());
        proof {
            assert(bytes@ =~= seq![byte]);
            assert(args@ =~= old(args)@ + self.args_view());
        }
    }

    fn num_args(&self) -> (n: usize) {
        1
    }
}

/// An opaque byte-string argument: the atomic unit of a wire command.
pub struct BulkString {
    bytes: Vec<u8>,
}

impl View for BulkString {
    type V = Seq<u8>;

    closed spec fn view(&self) -> Seq<u8> {
        self.bytes@
    }
}

impl BulkString {
    pub fn from_bytes(bytes: Vec<u8>) -> (r: Self)
        ensures
            r@ == bytes@,
    {
        BulkString { bytes }
    }

    pub fn from_text(text: &str) -> (r: Self)
        ensures
            r@ == encode_utf8(text@),
    {
        BulkString { bytes: slice_to_vec(text.as_bytes()) }
    }

    pub fn as_bytes(&self) -> (r: &[u8])
        ensures
            r@ == self@,
    {
        self.bytes.as_slice()
    }
}

impl ToArgs for BulkString {
    open spec fn args_view(&self) -> Seq<Seq<u8>> {
        seq![self@]
    }

    fn write_args(&self, args: &mut CommandArgs) {
        args.write_arg(self.as_bytes());
        proof {
            assert(args@ =~= old(args)@ + self.args_view());
        }
    }

    fn num_args(&self) -> (n: usize) {
        1
    }
}

impl ToArgs for Vec<u8> {
    open spec fn args_view(&self) -> Seq<Seq<u8>> {
        seq![self@]
    }

    fn write_args(&self, args: &mut CommandArgs) {
        args.write_arg(self.as_slice());
        proof {
            assert(args@ =~= old(args)@ + self.args_view());
        }
    }

    fn num_args(&self) -> (n: usize) {
        1
    }
}

impl ToArgs for &[u8] {
    open spec fn args_view(&self) -> Seq<Seq<u8>> {
        seq![self@]
    }

    fn write_args(&self, args: &mut CommandArgs) {
        args.write_arg(self);
        proof {
            assert(args@ =~= old(args)@ + self.args_view());
        }
    }

    fn num_args(&self) -> (n: usize) {
        1
    }
}

impl<const N: usize> ToArgs for [u8; N] {
    open spec fn args_view(&self) -> Seq<Seq<u8>> {
        seq![self@]
    }

    fn write_args(&self, args: &mut CommandArgs) {
        args.write_arg(self.as_slice());
        proof {
            assert(args@ =~= old(args)@ + self.args_view());
        }
    }

    fn num_args(&self) -> (n: usize) {
        1
    }
}

impl ToArgs for &str {
    open spec fn args_view(&self) -> Seq<Seq<u8>> {
        seq![encode_utf8(self@)]
    }

    fn write_args(&self, args: &mut CommandArgs) {
        args.write_arg(self.as_bytes());
        proof {
            assert(args@ =~= old(args)@ + self.args_view());
        }
    }

    fn num_args(&self) -> (n: usize) {
        1
    }
}

impl ToArgs for String {
    open spec fn args_view(&self) -> Seq<Seq<u8>> {
        seq![encode_utf8(self@)]
    }

    fn write_args(&self, args: &mut CommandArgs) {
        args.write_arg(self.as_str().as_bytes());
        proof {
            assert(args@ =~= old(args)@ + self.args_view());
        }
    }

    fn num_args(&self) -> (n: usize) {
        1
    }
}

impl<T: ToArgs> ToArgs for Option<T> {
    open spec fn args_view(&self) -> Seq<Seq<u8>> {
        match self {
            Some(t) => t.args_view(),
            None => Seq::empty(),
        }
    }

    fn write_args(&self, args: &mut CommandArgs) {
        match self {
            Some(t) => {
                t.write_args(args);
            },
            None => {
                proof {
                    assert(args@ =~= old(args)@ + self.args_view());
                }
            },
        }
    }

    fn num_args(&self) -> (n: usize) {
        match self {
            Some(t) => t.num_args(),
            None => 0,
        }
    }
}

impl<T: ToArgs> ToArgs for Vec<T> {
    open spec fn args_view(&self) -> Seq<Seq<u8>> {
        args_view_of_seq(self@)
    }

    fn write_args(&self, args: &mut CommandArgs) {
        let n = self.len();
        let mut i: usize = 0;
        while i < n
            invariant
                n == self@.len(),
                i <= n,
                args@ == old(args)@ + args_view_of_seq(self@.take(i as int)),
            decreases n - i,
        {
            self[i].write_args(args);
            proof {
                lemma_args_view_of_seq_take_succ(self@, i as int);
            }
            i += 1;
        }
        proof {
            assert(self@.take(n as int) =~= self@);
        }
    }

    fn num_args(&self) -> (n: usize) {
        let len = self.len();
        let mut total: usize = 0;
        let mut i: usize = 0;
        while i < len
            invariant
                len == self@.len(),
                i <= len,
                args_view_of_seq(self@).len() <= usize::MAX as nat,
                total == args_view_of_seq(self@.take(i as int)).len(),
            decreases len - i,
        {
            proof {
                assert(self@.take(i as int) + self@.skip(i as int) =~= self@);
                lemma_args_view_of_seq_concat(self@.take(i as int), self@.skip(i as int));
                assert(self@.skip(i as int).drop_first() =~= self@.skip(i as int + 1));
                assert(self@.skip(i as int)[0] == self@[i as int]);
                lemma_args_view_of_seq_take_succ(self@, i as int);
            }
            let e = self[i].num_args();
            total = total + e;
            i += 1;
        }
        proof {
            assert(self@.take(len as int) =~= self@);
        }
        total
    }
}

impl<T: ToArgs, U: ToArgs> ToArgs for (T, U) {
    open spec fn args_view(&self) -> Seq<Seq<u8>> {
        self.0.args_view() + self.1.args_view()
    }

    fn write_args(&self, args: &mut CommandArgs) {
        self.0.write_args(args);
        self.1.write_args(args);
        proof {
            assert(args@ =~= old(args)@ + self.args_view());
        }
    }

    fn num_args(&self) -> (n: usize) {
        let a = self.0.num_args();
        let b = self.1.num_args();
        a + b
    }
}

impl<T: ToArgs, U: ToArgs, V: ToArgs> ToArgs for (T, U, V) {
    open spec fn args_view(&self) -> Seq<Seq<u8>> {
        self.0.args_view() + self.1.args_view() + self.2.args_view()
    }

    fn write_args(&self, args: &mut CommandArgs) {
        self.0.write_args(args);
        self.1.write_args(args);
        self.2.write_args(args);
        proof {
            assert(args@ =~= old(args)@ + self.args_view());
        }
    }

    fn num_args(&self) -> (n: usize) {
        let a = self.0.num_args();
        let b = self.1.num_args();
        let c = self.2.num_args();
        a + b + c
    }
}

impl ToArgs for CommandArgs {
    open spec fn args_view(&self) -> Seq<Seq<u8>> {
        self@
    }

    fn write_args(&self, args: &mut CommandArgs) {
        let n = self.len();
        let mut i: usize = 0;
        while i < n
            invariant
                n == self@.len(),
                i <= n,
                args@ == old(args)@ + self@.take(i as int),
            decreases n - i,
        {
            args.write_arg(self.get(i).as_slice());
            proof {
                assert(self@.take(i as int).push(self@[i as int]) =~= self@.take(i as int + 1));
                assert(args@ =~= old(args)@ + self@.take(i as int + 1));
            }
            i += 1;
        }
        proof {
            assert(self@.take(n as int) =~= self@);
        }
    }

    fn num_args(&self) -> (n: usize) {
        self.len()
    }
}

/// Marker capability: exactly one raw argument per value.
pub trait SingleArg: ToArgs {
    /// Every value of this type serializes to exactly one argument.
    proof fn lemma_single(&self)
        ensures
            self.args_view().len() == 1,
    ;
}

impl SingleArg for i8 {
    proof fn lemma_single(&self) {
    }
}

impl SingleArg for i16 {
    proof fn lemma_single(&self) {
    }
}

impl SingleArg for i32 {
    proof fn lemma_single(&self) {
    }
}

impl SingleArg for i64 {
    proof fn lemma_single(&self) {
    }
}

impl SingleArg for isize {
    proof fn lemma_single(&self) {
    }
}

impl SingleArg for u16 {
    proof fn lemma_single(&self) {
    }
}

impl SingleArg for u32 {
    proof fn lemma_single(&self) {
    }
}

impl SingleArg for u64 {
    proof fn lemma_single(&self) {
    }
}

impl SingleArg for usize {
    proof fn lemma_single(&self) {
    }
}

impl SingleArg for bool {
    proof fn lemma_single(&self) {
    }
}

impl SingleArg for String {
    proof fn lemma_single(&self) {
    }
}

impl SingleArg for &str {
    proof fn lemma_single(&self) {
    }
}

impl SingleArg for Vec<u8> {
    proof fn lemma_single(&self) {
    }
}

impl SingleArg for &[u8] {
    proof fn lemma_single(&self) {
    }
}

impl<const N: usize> SingleArg for [u8; N] {
    proof fn lemma_single(&self) {
    }
}

impl SingleArg for BulkString {
    proof fn lemma_single(&self) {
    }
}

/// The arguments of a sequence of single-argument values are one per element.
pub proof fn lemma_single_flat_len<T: SingleArg>(s: Seq<T>)
    ensures
        args_view_of_seq(s).len() == s.len(),
    decreases s.len(),
{
    if s.len() == 0 {
    } else {
        s[0].lemma_single();
        lemma_single_flat_len(s.drop_first());
    }
}

/// Collections of values that may each serialize to several arguments.
pub trait MultipleArgsCollection<T: ToArgs>: ToArgs {

}

impl<T: ToArgs> MultipleArgsCollection<T> for Vec<T> {

}

impl<T: ToArgs> MultipleArgsCollection<T> for T {

}

/// Collections whose every element serializes to exactly one argument.
pub trait SingleArgCollection<T: SingleArg>: ToArgs {
    /// The argument count equals the element count, so it fits `usize`.
    proof fn lemma_args_fit(&self)
        ensures
            self.args_view().len() <= usize::MAX as nat,
    ;
}

impl<T: SingleArg> SingleArgCollection<T> for Vec<T> {
    proof fn lemma_args_fit(&self) {
        broadcast use vstd::std_specs::vec::axiom_spec_len;

        lemma_single_flat_len(self@);
        assert(vstd::std_specs::vec::spec_vec_len(self) == self@.len());
    }
}

impl<T: SingleArg> SingleArgCollection<T> for T {
    proof fn lemma_args_fit(&self) {
        self.lemma_single();
    }
}

impl SingleArgCollection<Vec<u8>> for CommandArgs {
    proof fn lemma_args_fit(&self) {
        self.lemma_len_fits();
    }
}

/// Key/value collections: key then value, one argument each.
pub trait KeyValueArgsCollection<K: SingleArg, V: SingleArg>: ToArgs {

}

impl<K: SingleArg, V: SingleArg> KeyValueArgsCollection<K, V> for Vec<(K, V)> {

}

impl<K: SingleArg, V: SingleArg> KeyValueArgsCollection<K, V> for (K, V) {

}

} // verus!
