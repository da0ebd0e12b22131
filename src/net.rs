//! Addresses, address blocks, and the expansion of target tokens into the
//! individual addresses they denote.
use vstd::arithmetic::power2::*;
use vstd::prelude::*;

verus! {

/// Number of bits in an address of the given family.
pub open spec fn width(v6: bool) -> nat {
    if v6 { 128 } else { 32 }
}

/// An IPv4 or IPv6 address, held as its numeric value.
#[derive(Clone, Copy, Debug, PartialEq, Eq, Structural)]
pub struct IpAddress {
    pub v6: bool,
    pub bits: u128,
}

impl IpAddress {
    pub open spec fn wf(self) -> bool {
        self.bits < pow2(width(self.v6))
    }
}

/// A CIDR block: the network address (host bits cleared) and the prefix
/// length. A bare address is a block whose prefix is the full width.
#[derive(Clone, Copy, Debug, PartialEq, Eq, Structural)]
pub struct Block {
    pub v6: bool,
    pub network: u128,
    pub prefix: u8,
}

impl Block {
    pub open spec fn view(self) -> (bool, u128, u8) {
        (self.v6, self.network, self.prefix)
    }

    pub open spec fn host_bits(self) -> nat {
        (width(self.v6) - self.prefix) as nat
    }

    /// How many addresses the block holds.
    pub open spec fn size(self) -> nat {
        pow2(self.host_bits())
    }

    pub open spec fn wf(self) -> bool {
        &&& self.prefix <= width(self.v6)
        &&& self.network < pow2(width(self.v6))
        &&& self.network as nat % self.size() == 0
    }

    /// `a` lies in the block: same family and same leading `prefix` bits.
    pub open spec fn contains(self, a: IpAddress) -> bool {
        &&& a.v6 == self.v6
        &&& a.wf()
        &&& a.bits as nat / self.size() == self.network as nat / self.size()
    }
}

/// Every address of a block, in ascending numeric order.
pub open spec fn block_addresses(b: Block) -> Seq<IpAddress> {
    Seq::new(b.size(), |i: int| IpAddress { v6: b.v6, bits: (b.network + i) as u128 })
}

/// The block that a target token denotes, as (is IPv6, network, prefix), or
/// `None` when the token is neither an address nor a CIDR block.
pub uninterp spec fn cidr_block(s: Seq<char>) -> Option<(bool, u128, u8)>;

/// Relies on `ipnetwork::IpNetwork::from_str`, `network` and `prefix`: a
/// parsed network has a prefix no longer than its family's width, and its
/// network address is the parsed address with the host bits cleared.
#[verifier::external_body]
fn parse_block(s: &str) -> (r: Option<Block>)
    ensures
        match r {
            Some(b) => cidr_block(s@) == Some(b@) && b.wf(),
            None => cidr_block(s@) is None,
        },
{
    match s.parse::<ipnetwork::IpNetwork>() {
        Ok(ipnetwork::IpNetwork::V4(n)) => Some(
            Block { v6: false, network: u32::from(n.network()) as u128, prefix: n.prefix() },
        ),
        Ok(ipnetwork::IpNetwork::V6(n)) => Some(
            Block { v6: true, network: u128::from(n.network()), prefix: n.prefix() },
        ),
        Err(_) => None,
    }
}

proof fn lemma_pow2_128()
    ensures
        pow2(128) == 0x1_0000_0000_0000_0000_0000_0000_0000_0000,
        pow2(32) == 0x1_0000_0000,
{
    lemma2_to64();
    lemma_pow2_adds(64, 64);
}

proof fn lemma_pow2_mono(a: nat, b: nat)
    requires
        a <= b,
    ensures
        pow2(a) <= pow2(b),
{
    if a < b {
        lemma_pow2_strictly_increases(a, b);
    }
}

/// An aligned network address leaves room for the whole block below the
/// top of the address space.
proof fn lemma_block_fits(b: Block)
    requires
        b.wf(),
    ensures
        b.network + b.size() <= pow2(width(b.v6)),
        pow2(width(b.v6)) <= 0x1_0000_0000_0000_0000_0000_0000_0000_0000,
{
    let h = b.host_bits();
    let w = width(b.v6);
    let size = b.size();
    let k = (w - h) as nat;
    lemma_pow2_adds(k, h);
    assert(k + h == w);
    lemma_pow2_pos(h);
    let top = pow2(k);
    let n = b.network as int;
    let q = n / size as int;
    assert(n == q * size) by (nonlinear_arith)
        requires
            n % (size as int) == 0,
            size > 0,
            q == n / size as int,
    ;
    assert(n + size <= top * size) by (nonlinear_arith)
        requires
            n == q * size,
            n < top * size,
            size > 0,
            q >= 0,
    ;
    lemma_pow2_128();
    lemma_pow2_mono(w, 128);
}

/// Expanding a block yields exactly the addresses that the block contains,
/// each once, in strictly ascending numeric order, and as many of them as
/// the block's capacity `2^(width - prefix)`.
pub proof fn lemma_block_expansion_exact(b: Block)
    requires
        b.wf(),
    ensures
        block_addresses(b).len() == pow2((width(b.v6) - b.prefix) as nat),
        forall|i: int, j: int|
            0 <= i < j < block_addresses(b).len() ==> block_addresses(b)[i].bits
                < block_addresses(b)[j].bits,
        forall|a: IpAddress| #[trigger] block_addresses(b).contains(a) <==> b.contains(a),
{
    let s = block_addresses(b);
    let size = b.size();
    lemma_block_fits(b);
    lemma_pow2_pos(b.host_bits());
    let n = b.network as int;
    let q = n / size as int;
    assert(n == q * size) by (nonlinear_arith)
        requires
            n % (size as int) == 0,
            size > 0,
            q == n / size as int,
    ;
    assert forall|a: IpAddress| #[trigger] s.contains(a) implies b.contains(a) by {
        let i = choose|i: int| 0 <= i < s.len() && s[i] == a;
        assert(s[i] == a);
        let x = n + i;
        assert(x / size as int == q) by (nonlinear_arith)
            requires
                x == q * size + i,
                0 <= i < size,
                size > 0,
        ;
    }
    assert forall|a: IpAddress| b.contains(a) implies #[trigger] s.contains(a) by {
        let x = a.bits as int;
        let i = x - n;
        assert(0 <= i < size) by (nonlinear_arith)
            requires
                x / size as int == q,
                n == q * size,
                i == x - n,
                size > 0,
                x >= 0,
        ;
        assert(s[i] == a);
    }
}

/// `2^h - 1`, the offset of the last address of a block with `h` host bits.
fn host_span(h: u8) -> (r: u128)
    requires
        h <= 128,
    ensures
        r as nat + 1 == pow2(h as nat),
{
    proof {
        lemma_pow2_128();
        lemma2_to64();
    }
    let mut r: u128 = 0;
    let mut i: u8 = 0;
    while i < h
        invariant
            i <= h <= 128,
            r as nat + 1 == pow2(i as nat),
            pow2(128) == 0x1_0000_0000_0000_0000_0000_0000_0000_0000,
        decreases h - i,
    {
        proof {
            lemma_pow2_unfold((i + 1) as nat);
            lemma_pow2_mono((i + 1) as nat, 128);
        }
        r = r * 2 + 1;
        i = i + 1;
    }
    r
}

/// Every address in block `b`, network and broadcast addresses included,
/// in ascending numeric order.
pub fn expand_block(b: &Block) -> (r: Vec<IpAddress>)
    requires
        b.wf(),
    ensures
        r@ == block_addresses(*b),
{
    let w: u8 = if b.v6 { 128 } else { 32 };
    let span = host_span(w - b.prefix);
    proof {
        lemma_block_fits(*b);
    }
    let last = b.network + span;
    let mut out: Vec<IpAddress> = Vec::new();
    let mut cur = b.network;
    loop
        invariant_except_break
            b.network <= cur <= last,
            out@.len() == cur - b.network,
        invariant
            last == b.network + span,
            span + 1 == b.size(),
            forall|m: int|
                0 <= m < out@.len() ==> #[trigger] out@[m] == (IpAddress {
                    v6: b.v6,
                    bits: (b.network + m) as u128,
                }),
        ensures
            out@.len() == b.size(),
        decreases last - cur,
    {
        out.push(IpAddress { v6: b.v6, bits: cur });
        if cur == last {
            break;
        }
        cur = cur + 1;
    }
    assert(out@ =~= block_addresses(*b));
    out
}

/// The addresses one target token denotes; none when it does not parse.
pub open spec fn token_addresses(t: Seq<char>) -> Seq<IpAddress> {
    match cidr_block(t) {
        Some((v6, network, prefix)) => block_addresses(Block { v6, network, prefix }),
        None => Seq::empty(),
    }
}

/// The addresses of all target tokens, token after token.
pub open spec fn targets_addresses(ts: Seq<Seq<char>>) -> Seq<IpAddress>
    decreases ts.len(),
{
    if ts.len() == 0 {
        Seq::empty()
    } else {
        targets_addresses(ts.drop_last()) + token_addresses(ts.last())
    }
}

pub open spec fn token_views(ts: Seq<String>) -> Seq<Seq<char>> {
    ts.map_values(|t: String| t@)
}

/// Expands every target token into its addresses and concatenates them in
/// token order. A token that is neither an address nor a CIDR block is
/// skipped.
pub fn expand_targets(targets: &Vec<String>) -> (r: Vec<IpAddress>)
    ensures
        r@ == targets_addresses(token_views(targets@)),
{
    let mut out: Vec<IpAddress> = Vec::new();
    let mut i: usize = 0;
    while i < targets.len()
        invariant
            i <= targets@.len(),
            out@ == targets_addresses(token_views(targets@.take(i as int))),
        decreases targets@.len() - i,
    {
        let ghost before = out@;
        match parse_block(targets[i].as_str()) {
            Some(b) => {
                let mut addrs = expand_block(&b);
                out.append(&mut addrs);
            },
            None => {},
        }
        proof {
            let ts = token_views(targets@.take(i + 1));
            assert(ts.drop_last() =~= token_views(targets@.take(i as int)));
            assert(ts.last() == targets@[i as int]@);
        }
        i = i + 1;
    }
    assert(targets@.take(i as int) =~= targets@);
    out
}

/// A target token that is neither an address nor a CIDR block.
#[derive(Clone, Copy, Debug, PartialEq, Eq, Structural)]
pub enum ParseError {
    InvalidTarget,
}

/// Expands one target token, a single address or a CIDR block, into its
/// addresses in ascending order; fails exactly when the token is neither.
pub fn parse_cidr(cidr: &str) -> (r: Result<Vec<IpAddress>, ParseError>)
    ensures
        r is Ok <==> cidr_block(cidr@) is Some,
        r matches Ok(v) ==> v@ == token_addresses(cidr@),
        r matches Err(e) ==> e == ParseError::InvalidTarget,
{
    match parse_block(cidr) {
        Some(b) => Ok(expand_block(&b)),
        None => Err(ParseError::InvalidTarget),
    }
}

/// The pieces of `s` between single spaces, as splitting on `" "` gives
/// them: consecutive spaces leave empty pieces, and there is always at
/// least one piece.
pub open spec fn split_spaces(s: Seq<char>) -> Seq<Seq<char>>
    decreases s.len(),
{
    if s.len() == 0 {
        seq![Seq::empty()]
    } else {
        let p = split_spaces(s.drop_last());
        if s.last() == ' ' {
            p.push(Seq::empty())
        } else {
            p.update(p.len() - 1, p.last().push(s.last()))
        }
    }
}

proof fn lemma_split_spaces_nonempty(s: Seq<char>)
    ensures
        split_spaces(s).len() >= 1,
    decreases s.len(),
{
    if s.len() > 0 {
        lemma_split_spaces_nonempty(s.drop_last());
    }
}

/// Splits a target string into its tokens at every space.
pub fn split_targets(input: &str) -> (r: Vec<String>)
    ensures
        token_views(r@) == split_spaces(input@),
{
    let n = input.unicode_len();
    let mut out: Vec<String> = Vec::new();
    let mut start: usize = 0;
    let mut i: usize = 0;
    proof {
        assert(token_views(out@) =~= Seq::<Seq<char>>::empty());
        assert(input@.take(0) =~= Seq::<char>::empty());
        assert(token_views(out@).push(input@.subrange(0, 0)) =~= split_spaces(input@.take(0)));
    }
    while i < n
        invariant
            n == input@.len(),
            start <= i <= n,
            token_views(out@).push(input@.subrange(start as int, i as int)) == split_spaces(
                input@.take(i as int),
            ),
        decreases n - i,
    {
        let ghost prev = token_views(out@);
        proof {
            lemma_split_spaces_nonempty(input@.take(i as int));
            assert(input@.take(i + 1).drop_last() =~= input@.take(i as int));
        }
        if input.get_char(i) == ' ' {
            let piece = input.substring_char(start, i).to_owned();
            out.push(piece);
            start = i + 1;
            proof {
                assert(token_views(out@) =~= prev.push(piece@));
                assert(input@.subrange(start as int, i + 1) =~= Seq::<char>::empty());
            }
        } else {
            proof {
                assert(input@.subrange(start as int, i + 1) =~= input@.subrange(
                    start as int,
                    i as int,
                ).push(input@[i as int]));
                assert(token_views(out@).push(input@.subrange(start as int, i + 1)) =~= split_spaces(
                    input@.take(i + 1),
                ));
            }
        }
        i = i + 1;
    }
    let last = input.substring_char(start, n).to_owned();
    let ghost prev = token_views(out@);
    out.push(last);
    proof {
        assert(token_views(out@) =~= prev.push(last@));
        assert(input@.take(n as int) =~= input@);
    }
    out
}

} // verus!
