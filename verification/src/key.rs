//! Stable structural identifiers for a render pass.
//!
//! A server render pass and the later client hydration pass each walk the same
//! component tree and pull identifiers from a pass-scoped allocator. The two
//! sequences must agree exactly, so the allocator is a plain monotonic counter
//! owned by an explicit per-pass context, never shared between passes.

use vstd::prelude::*;

verus! {

use vstd::string::StringExecFns;

/// A stable identifier within the server-rendering or hydration process.
#[derive(Copy, Clone, Debug, PartialEq, Eq, Hash, Structural)]
pub struct HydrationKey {
    /// ID of the current key.
    pub id: usize,
}

impl Default for HydrationKey {
    fn default() -> (r: Self)
        ensures
            r.id == 0,
    {
        HydrationKey { id: 0 }
    }
}

/// The character for a single decimal digit.
pub open spec fn digit_char(d: nat) -> char {
    if d == 0 {
        '0'
    } else if d == 1 {
        '1'
    } else if d == 2 {
        '2'
    } else if d == 3 {
        '3'
    } else if d == 4 {
        '4'
    } else if d == 5 {
        '5'
    } else if d == 6 {
        '6'
    } else if d == 7 {
        '7'
    } else if d == 8 {
        '8'
    } else {
        '9'
    }
}

/// The decimal rendering of `n`, most significant digit first, no leading
/// zeros (a single `'0'` for zero).
pub open spec fn dec_digits(n: nat) -> Seq<char>
    decreases n,
{
    if n < 10 {
        seq![digit_char(n)]
    } else {
        dec_digits(n / 10).push(digit_char(n % 10))
    }
}

/// The textual form of a key: `_` followed by the decimal value, and in debug
/// mode a trailing `o` (opening) or `c` (closing) so that paired markers can
/// be told apart by eye.
pub open spec fn key_text(id: nat, closing: bool, debug: bool) -> Seq<char> {
    seq!['_'] + dec_digits(id) + (if debug {
        seq![if closing { 'c' } else { 'o' }]
    } else {
        Seq::<char>::empty()
    })
}

fn digit_str(d: usize) -> (r: &'static str)
    requires
        d < 10,
    ensures
        r@ == seq![digit_char(d as nat)],
{
    proof {
        reveal_strlit("0");
        reveal_strlit("1");
        reveal_strlit("2");
        reveal_strlit("3");
        reveal_strlit("4");
        reveal_strlit("5");
        reveal_strlit("6");
        reveal_strlit("7");
        reveal_strlit("8");
        reveal_strlit("9");
    }
    let r = match d {
        0 => "0",
        1 => "1",
        2 => "2",
        3 => "3",
        4 => "4",
        5 => "5",
        6 => "6",
        7 => "7",
        8 => "8",
        _ => "9",
    };
    proof {
        assert(r@ =~= seq![digit_char(d as nat)]);
    }
    r
}

fn push_digits(n: usize, out: &mut String)
    ensures
        final(out)@ == old(out)@ + dec_digits(n as nat),
    decreases n,
{
    if n < 10 {
        out.append(digit_str(n));
        proof {
            assert(final(out)@ =~= old(out)@ + dec_digits(n as nat));
        }
    } else {
        proof {
            vstd::arithmetic::div_mod::lemma_div_decreases(n as int, 10);
            vstd::arithmetic::div_mod::lemma_mod_division_less_than_divisor(n as int, 10);
        }
        let q = n / 10;
        push_digits(q, out);
        out.append(digit_str(n % 10));
        proof {
            assert(dec_digits(n as nat) == dec_digits((n / 10) as nat).push(
                digit_char((n % 10) as nat),
            ));
            assert(final(out)@ =~= old(out)@ + dec_digits(n as nat));
        }
    }
}

/// Control and utility methods for hydration: the per-pass key allocator and
/// the pass's one-way hydration-mode flag.
pub struct HydrationCtx {
    key: HydrationKey,
    hydrating: bool,
}

impl HydrationCtx {
    /// The value that the counter currently holds (the last key issued, or
    /// zero at the start of a pass).
    pub closed spec fn spec_key(self) -> nat {
        self.key.id as nat
    }

    /// Whether this pass is still reusing server-rendered nodes.
    pub closed spec fn spec_hydrating(self) -> bool {
        self.hydrating
    }

    /// The counter value after one allocation: one more, wrapping to zero
    /// past the machine limit.
    pub open spec fn wrap_inc(n: nat) -> nat {
        if n == usize::MAX as nat {
            0
        } else {
            n + 1
        }
    }

    /// Creates a fresh context for one render pass, counting from zero.
    pub fn new(hydrating: bool) -> (r: Self)
        ensures
            r.spec_key() == 0,
            r.spec_hydrating() == hydrating,
    {
        HydrationCtx { key: HydrationKey { id: 0 }, hydrating }
    }

    /// Get the next `id` without incrementing it.
    pub fn peek(&self) -> (r: HydrationKey)
        ensures
            r.id as nat == self.spec_key(),
    {
        self.key
    }

    /// Increments the current hydration `id` and returns it.
    pub fn id(&mut self) -> (r: HydrationKey)
        ensures
            final(self).spec_key() == Self::wrap_inc(old(self).spec_key()),
            r.id as nat == final(self).spec_key(),
            final(self).spec_hydrating() == old(self).spec_hydrating(),
    {
        self.key.id = self.key.id.wrapping_add(1);
        self.key
    }

    /// Restores the counter to its initial value, so that one pass cannot
    /// leak numbering into the next. Meant for environments that run one
    /// pass per request; a browser pass keeps its single numbering.
    pub fn reset_id(&mut self)
        ensures
            final(self).spec_key() == 0,
            final(self).spec_hydrating() == old(self).spec_hydrating(),
    {
        self.key = HydrationKey { id: 0 };
    }

    /// Resumes hydration from the provided `id`. Useful for `Suspense` and
    /// other deferred subtrees that must continue numbering from a recorded
    /// point rather than restart at zero.
    pub fn continue_from(&mut self, id: HydrationKey)
        ensures
            final(self).spec_key() == id.id as nat,
            final(self).spec_hydrating() == old(self).spec_hydrating(),
    {
        self.key = id;
    }

    /// Turns hydration mode off for good; a one-way transition taken after
    /// the first full client-side render completes.
    pub fn stop_hydrating(&mut self)
        ensures
            !final(self).spec_hydrating(),
            final(self).spec_key() == old(self).spec_key(),
    {
        self.hydrating = false;
    }

    /// Whether this pass is still reusing server-rendered nodes.
    pub fn is_hydrating(&self) -> (r: bool)
        ensures
            r == self.spec_hydrating(),
    {
        self.hydrating
    }

    /// Renders a key to its marker text.
    pub fn to_string(id: &HydrationKey, closing: bool, debug: bool) -> (r: String)
        ensures
            r@ == key_text(id.id as nat, closing, debug),
    {
        proof {
            reveal_strlit("_");
            reveal_strlit("c");
            reveal_strlit("o");
        }
        let mut s = String::new();
        s.append("_");
        push_digits(id.id, &mut s);
        if debug {
            if closing {
                s.append("c");
            } else {
                s.append("o");
            }
        }
        proof {
            assert(s@ =~= key_text(id.id as nat, closing, debug));
        }
        s
    }
}

/// The sequence of counter values issued by `n` consecutive allocations that
/// start from counter value `start`.
pub open spec fn key_sequence(start: nat, n: nat) -> Seq<nat>
    decreases n,
{
    if n == 0 {
        Seq::empty()
    } else {
        seq![HydrationCtx::wrap_inc(start)] + key_sequence(HydrationCtx::wrap_inc(start), (n - 1) as nat)
    }
}

impl HydrationCtx {
    /// Performs `n` consecutive allocations, as one structural position of a
    /// tree walk after another would.
    pub fn take_keys(&mut self, n: usize) -> (r: Vec<HydrationKey>)
        ensures
            r@.map_values(|k: HydrationKey| k.id as nat) == key_sequence(old(self).spec_key(), n as nat),
            final(self).spec_hydrating() == old(self).spec_hydrating(),
    {
        let mut r: Vec<HydrationKey> = Vec::new();
        let ghost start: nat = self.spec_key();
        let mut i: usize = 0;
        while i < n
            invariant
                i <= n,
                r@.len() == i,
                r@.map_values(|k: HydrationKey| k.id as nat) == key_sequence(start, i as nat),
                self.spec_hydrating() == old(self).spec_hydrating(),
                self.spec_key() == (if i == 0 {
                    start
                } else {
                    nth_key(start, (i - 1) as nat)
                }),
            decreases n - i,
        {
            let k = self.id();
            r.push(k);
            proof {
                lemma_nth_key_step(start, i as nat);
                assert(k.id as nat == nth_key(start, i as nat));
                lemma_key_sequence_snoc(start, i as nat);
                assert(r@.map_values(|k: HydrationKey| k.id as nat) =~= key_sequence(
                    start,
                    i as nat,
                ).push(nth_key(start, i as nat)));
            }
            i = i + 1;
        }
        r
    }
}

/// The value that allocation number `i` (zero-based) yields, as a function of
/// the starting counter alone.
pub open spec fn nth_key(start: nat, i: nat) -> nat
    decreases i,
{
    if i == 0 {
        HydrationCtx::wrap_inc(start)
    } else {
        nth_key(HydrationCtx::wrap_inc(start), (i - 1) as nat)
    }
}

proof fn lemma_nth_key_step(start: nat, i: nat)
    ensures
        nth_key(start, i) == (if i == 0 {
            HydrationCtx::wrap_inc(start)
        } else {
            HydrationCtx::wrap_inc(nth_key(start, (i - 1) as nat))
        }),
    decreases i,
{
    if i > 0 {
        lemma_nth_key_step(HydrationCtx::wrap_inc(start), (i - 1) as nat);
    }
}

proof fn lemma_key_sequence_index(start: nat, n: nat, i: int)
    requires
        0 <= i < n,
    ensures
        key_sequence(start, n)[i] == nth_key(start, i as nat),
        key_sequence(start, n).len() == n,
    decreases n,
{
    lemma_key_sequence_len(start, n);
    if i > 0 {
        lemma_key_sequence_index(HydrationCtx::wrap_inc(start), (n - 1) as nat, i - 1);
    }
}

proof fn lemma_key_sequence_len(start: nat, n: nat)
    ensures
        key_sequence(start, n).len() == n,
    decreases n,
{
    if n > 0 {
        lemma_key_sequence_len(HydrationCtx::wrap_inc(start), (n - 1) as nat);
    }
}

proof fn lemma_key_sequence_snoc(start: nat, n: nat)
    ensures
        key_sequence(start, n + 1) == key_sequence(start, n).push(nth_key(start, n)),
    decreases n,
{
    lemma_key_sequence_len(start, n);
    lemma_key_sequence_len(start, (n + 1) as nat);
    if n == 0 {
        assert(key_sequence(start, 1) =~= key_sequence(start, 0).push(nth_key(start, 0)));
    } else {
        lemma_key_sequence_snoc(HydrationCtx::wrap_inc(start), (n - 1) as nat);
        assert(key_sequence(start, n + 1) =~= key_sequence(start, n).push(nth_key(start, n)));
    }
}

proof fn lemma_dec_digits_len(n: nat)
    ensures
        dec_digits(n).len() >= 1,
        n >= 10 ==> dec_digits(n).len() >= 2,
    decreases n,
{
    if n >= 10 {
        vstd::arithmetic::div_mod::lemma_div_decreases(n as int, 10);
        lemma_dec_digits_len(n / 10);
    }
}

proof fn lemma_dec_digits_injective(a: nat, b: nat)
    requires
        dec_digits(a) == dec_digits(b),
    ensures
        a == b,
    decreases a,
{
    lemma_dec_digits_len(a);
    lemma_dec_digits_len(b);
    if a < 10 && b < 10 {
        assert(dec_digits(a)[0] == digit_char(a));
        assert(dec_digits(b)[0] == digit_char(b));
    } else if a < 10 || b < 10 {
        assert(false);
    } else {
        vstd::arithmetic::div_mod::lemma_div_decreases(a as int, 10);
        vstd::arithmetic::div_mod::lemma_mod_division_less_than_divisor(a as int, 10);
        vstd::arithmetic::div_mod::lemma_mod_division_less_than_divisor(b as int, 10);
        assert(dec_digits(a).last() == digit_char(a % 10));
        assert(dec_digits(b).last() == digit_char(b % 10));
        assert(a % 10 == b % 10);
        assert(dec_digits(a).drop_last() =~= dec_digits(a / 10));
        assert(dec_digits(b).drop_last() =~= dec_digits(b / 10));
        lemma_dec_digits_injective(a / 10, b / 10);
        vstd::arithmetic::div_mod::lemma_fundamental_div_mod(a as int, 10);
        vstd::arithmetic::div_mod::lemma_fundamental_div_mod(b as int, 10);
    }
}

/// Injective rendering: within one mode, two keys render to the same text
/// only if they are the same key — and in debug mode the open/close
/// distinction is recovered from the text as well, so paired markers never
/// collide.
pub proof fn lemma_key_text_injective(a: nat, b: nat, ca: bool, cb: bool, debug: bool)
    requires
        key_text(a, ca, debug) == key_text(b, cb, debug),
    ensures
        a == b,
        debug ==> ca == cb,
{
    let ta = key_text(a, ca, debug);
    let tb = key_text(b, cb, debug);
    lemma_dec_digits_len(a);
    lemma_dec_digits_len(b);
    let la = dec_digits(a).len() as int;
    let lb = dec_digits(b).len() as int;
    let s: int = if debug {
        1
    } else {
        0
    };
    assert(ta.len() == 1 + la + s);
    assert(tb.len() == 1 + lb + s);
    assert(la == lb);
    assert forall|i: int| 0 <= i < la implies dec_digits(a)[i] == dec_digits(b)[i] by {
        assert(ta[1 + i] == dec_digits(a)[i]);
        assert(tb[1 + i] == dec_digits(b)[i]);
    }
    assert(dec_digits(a) =~= dec_digits(b));
    lemma_dec_digits_injective(a, b);
    if debug {
        assert(ta[1 + la] == (if ca {
            'c'
        } else {
            'o'
        }));
        assert(tb[1 + lb] == (if cb {
            'c'
        } else {
            'o'
        }));
    }
}

/// Deterministic numbering: the keys a pass allocates are a function of the
/// starting counter and the number of structural positions walked alone, so
/// a server pass and a client pass that walk the same tree from the same
/// starting counter allocate identical key sequences.
pub proof fn lemma_deterministic_numbering(server: Seq<nat>, client: Seq<nat>, start: nat, n: nat)
    requires
        server == key_sequence(start, n),
        client == key_sequence(start, n),
    ensures
        server == client,
        server.len() == n,
        forall|i: int| 0 <= i < n ==> server[i] == nth_key(start, i as nat),
{
    lemma_key_sequence_len(start, n);
    assert forall|i: int| 0 <= i < n implies server[i] == nth_key(start, i as nat) by {
        lemma_key_sequence_index(start, n, i);
    }
}

} // verus!
