use vstd::prelude::*;

verus! {

/// The header of a wire message: the object that sends it, the opcode
/// within that object's interface, and the size in bytes, header included.
#[derive(Clone, Copy, Debug, PartialEq, Eq, Structural)]
pub struct MessageHeader {
    pub sender_id: u32,
    pub opcode: u16,
    pub size: u16,
}

/// The wire type of one argument, as an interface's signature lists it.
#[derive(Clone, Copy, Debug, PartialEq, Eq, Structural)]
pub enum ArgumentType {
    Int,
    Uint,
    Fixed,
    Str,
    Array,
    Object,
    NewId,
    Fd,
}

/// One argument of a message. A string is held without its terminating
/// nul byte; a fixed-point number as its raw 24.8 bits; a file descriptor
/// travels out of band, beside the bytes.
#[derive(Clone, Debug, PartialEq, Eq)]
pub enum Argument {
    Int(i32),
    Uint(u32),
    Fixed(i32),
    Str(Vec<u8>),
    Array(Vec<u8>),
    Object(u32),
    NewId(u32),
    Fd(i32),
}

/// An argument as a mathematical value.
pub enum ArgumentView {
    Int(i32),
    Uint(u32),
    Fixed(i32),
    Str(Seq<u8>),
    Array(Seq<u8>),
    Object(u32),
    NewId(u32),
    Fd(i32),
}

impl View for Argument {
    type V = ArgumentView;

    open spec fn view(&self) -> ArgumentView {
        match self {
            Argument::Int(v) => ArgumentView::Int(*v),
            Argument::Uint(v) => ArgumentView::Uint(*v),
            Argument::Fixed(v) => ArgumentView::Fixed(*v),
            Argument::Str(s) => ArgumentView::Str(s@),
            Argument::Array(a) => ArgumentView::Array(a@),
            Argument::Object(id) => ArgumentView::Object(*id),
            Argument::NewId(id) => ArgumentView::NewId(*id),
            Argument::Fd(fd) => ArgumentView::Fd(*fd),
        }
    }
}

/// The views of a list of arguments.
pub open spec fn views(args: Seq<Argument>) -> Seq<ArgumentView> {
    args.map_values(|a: Argument| a@)
}

/// How many zero bytes bring `n` bytes up to a multiple of four.
pub open spec fn pad4(n: nat) -> nat {
    ((4 - n % 4) % 4) as nat
}

/// `n` zero bytes.
pub open spec fn zeros(n: nat) -> Seq<u8> {
    Seq::new(n, |i: int| 0u8)
}

/// Whether an argument's length prefix fits in a word.
pub open spec fn arg_fits(a: ArgumentView) -> bool {
    match a {
        ArgumentView::Str(s) => s.len() + 1 <= u32::MAX,
        ArgumentView::Array(v) => v.len() <= u32::MAX,
        _ => true,
    }
}

/// The bytes of one argument.
pub open spec fn arg_bytes(a: ArgumentView) -> Seq<u8> {
    match a {
        ArgumentView::Int(v) => le32(v as u32),
        ArgumentView::Uint(v) => le32(v),
        ArgumentView::Fixed(v) => le32(v as u32),
        ArgumentView::Str(s) => le32((s.len() + 1) as u32) + s + seq![0u8] + zeros(pad4(s.len() + 1)),
        ArgumentView::Array(v) => le32(v.len() as u32) + v + zeros(pad4(v.len())),
        ArgumentView::Object(id) => le32(id),
        ArgumentView::NewId(id) => le32(id),
        ArgumentView::Fd(_) => seq![],
    }
}

/// The file descriptors that one argument carries.
pub open spec fn arg_fds(a: ArgumentView) -> Seq<i32> {
    match a {
        ArgumentView::Fd(fd) => seq![fd],
        _ => seq![],
    }
}

/// The wire type of one argument.
pub open spec fn arg_type(a: ArgumentView) -> ArgumentType {
    match a {
        ArgumentView::Int(_) => ArgumentType::Int,
        ArgumentView::Uint(_) => ArgumentType::Uint,
        ArgumentView::Fixed(_) => ArgumentType::Fixed,
        ArgumentView::Str(_) => ArgumentType::Str,
        ArgumentView::Array(_) => ArgumentType::Array,
        ArgumentView::Object(_) => ArgumentType::Object,
        ArgumentView::NewId(_) => ArgumentType::NewId,
        ArgumentView::Fd(_) => ArgumentType::Fd,
    }
}

/// The bytes of a list of arguments, in order.
pub open spec fn args_bytes(args: Seq<ArgumentView>) -> Seq<u8>
    decreases args.len(),
{
    if args.len() == 0 {
        seq![]
    } else {
        args_bytes(args.drop_last()) + arg_bytes(args.last())
    }
}

/// The file descriptors of a list of arguments, in order.
pub open spec fn args_fds(args: Seq<ArgumentView>) -> Seq<i32>
    decreases args.len(),
{
    if args.len() == 0 {
        seq![]
    } else {
        args_fds(args.drop_last()) + arg_fds(args.last())
    }
}

/// One argument of type `t` read at byte `at`, with file descriptors taken
/// from `fd_at` on: the argument, the next byte and the next descriptor.
#[verifier::opaque]
pub open spec fn decode_arg(b: Seq<u8>, at: int, t: ArgumentType, fds: Seq<i32>, fd_at: int) -> Option<
    (ArgumentView, int, int),
> {
    match t {
        ArgumentType::Fd => if 0 <= fd_at < fds.len() {
            Some((ArgumentView::Fd(fds[fd_at]), at, fd_at + 1))
        } else {
            None
        },
        _ => if 0 <= at && at + 4 <= b.len() {
            let w = read32(b, at);
            let n = w as int;
            let start = at + 4;
            match t {
                ArgumentType::Int => Some((ArgumentView::Int(w as i32), start, fd_at)),
                ArgumentType::Uint => Some((ArgumentView::Uint(w), start, fd_at)),
                ArgumentType::Fixed => Some((ArgumentView::Fixed(w as i32), start, fd_at)),
                ArgumentType::Object => Some((ArgumentView::Object(w), start, fd_at)),
                ArgumentType::NewId => Some((ArgumentView::NewId(w), start, fd_at)),
                ArgumentType::Str => if n >= 1 && start + n + pad4(n as nat) <= b.len() && b[start + n
                    - 1] == 0 {
                    Some(
                        (
                            ArgumentView::Str(b.subrange(start, start + n - 1)),
                            start + n + pad4(n as nat),
                            fd_at,
                        ),
                    )
                } else {
                    None
                },
                _ => if start + n + pad4(n as nat) <= b.len() {
                    Some(
                        (
                            ArgumentView::Array(b.subrange(start, start + n)),
                            start + n + pad4(n as nat),
                            fd_at,
                        ),
                    )
                } else {
                    None
                },
            }
        } else {
            None
        },
    }
}

/// The arguments of signature `sig` read from byte `at` to the very end of
/// `b`, with file descriptors taken from `fd_at` on; `None` when the bytes
/// are short, malformed, left over, or descriptors are missing.
pub open spec fn decode_args(b: Seq<u8>, at: int, sig: Seq<ArgumentType>, fds: Seq<i32>, fd_at: int) -> Option<
    Seq<ArgumentView>,
>
    decreases sig.len(),
{
    if sig.len() == 0 {
        if at == b.len() {
            Some(seq![])
        } else {
            None
        }
    } else {
        match decode_arg(b, at, sig[0], fds, fd_at) {
            Some((a, next, next_fd)) => match decode_args(
                b,
                next,
                sig.subrange(1, sig.len() as int),
                fds,
                next_fd,
            ) {
                Some(rest) => Some(seq![a] + rest),
                None => None,
            },
            None => None,
        }
    }
}

/// The four little-endian bytes of `x`.
pub open spec fn le32(x: u32) -> Seq<u8> {
    seq![
        (x & 0xff) as u8,
        ((x >> 8u32) & 0xff) as u8,
        ((x >> 16u32) & 0xff) as u8,
        ((x >> 24u32) & 0xff) as u8,
    ]
}

/// The little-endian word at `at` in `b`.
pub open spec fn read32(b: Seq<u8>, at: int) -> u32 {
    (b[at] as u32) | ((b[at + 1] as u32) << 8u32) | ((b[at + 2] as u32) << 16u32) | ((b[at + 3] as u32)
        << 24u32)
}

/// The second header word: opcode in the low half, size in the high half.
pub open spec fn header_word(opcode: u16, size: u16) -> u32 {
    (opcode as u32) | ((size as u32) << 16u32)
}

/// The eight bytes of a message header.
pub open spec fn header_bytes(h: MessageHeader) -> Seq<u8> {
    le32(h.sender_id) + le32(header_word(h.opcode, h.size))
}

/// The header that the first eight bytes of `b` hold.
pub open spec fn header_at(b: Seq<u8>) -> MessageHeader {
    let w = read32(b, 4);
    MessageHeader { sender_id: read32(b, 0), opcode: (w & 0xffff) as u16, size: (w >> 16u32) as u16 }
}

/// Reading back the bytes of a word gives the word.
pub proof fn lemma_read_le32(x: u32, b: Seq<u8>, at: int)
    requires
        0 <= at,
        at + 4 <= b.len(),
        b.subrange(at, at + 4) == le32(x),
    ensures
        read32(b, at) == x,
{
    assert(b[at] == le32(x)[0]);
    assert(b[at + 1] == le32(x)[1]);
    assert(b[at + 2] == le32(x)[2]);
    assert(b[at + 3] == le32(x)[3]);
    let b0 = x & 0xff;
    let b1 = (x >> 8u32) & 0xff;
    let b2 = (x >> 16u32) & 0xff;
    let b3 = (x >> 24u32) & 0xff;
    assert(b0 < 256 && b1 < 256 && b2 < 256 && b3 < 256) by (bit_vector)
        requires
            b0 == x & 0xff,
            b1 == (x >> 8u32) & 0xff,
            b2 == (x >> 16u32) & 0xff,
            b3 == (x >> 24u32) & 0xff,
    ;
    assert(b0 | (b1 << 8u32) | (b2 << 16u32) | (b3 << 24u32) == x) by (bit_vector)
        requires
            b0 == x & 0xff,
            b1 == (x >> 8u32) & 0xff,
            b2 == (x >> 16u32) & 0xff,
            b3 == (x >> 24u32) & 0xff,
    ;
}

/// Decoding an encoded header gives the header back.
pub proof fn lemma_header_round_trip(h: MessageHeader)
    ensures
        header_at(header_bytes(h)) == h,
{
    let b = header_bytes(h);
    assert(b.subrange(0, 4) =~= le32(h.sender_id));
    assert(b.subrange(4, 8) =~= le32(header_word(h.opcode, h.size)));
    lemma_read_le32(h.sender_id, b, 0);
    lemma_read_le32(header_word(h.opcode, h.size), b, 4);
    let o = h.opcode as u32;
    let s = h.size as u32;
    assert(o < 0x10000 && s < 0x10000);
    assert(((o | (s << 16u32)) & 0xffff) == o && ((o | (s << 16u32)) >> 16u32) == s) by (bit_vector)
        requires
            o < 0x10000,
            s < 0x10000,
    ;
}

/// Appends the little-endian bytes of a word.
pub fn push_u32(out: &mut Vec<u8>, x: u32)
    ensures
        final(out)@ == old(out)@ + le32(x),
{
    out.push((x & 0xff) as u8);
    out.push(((x >> 8) & 0xff) as u8);
    out.push(((x >> 16) & 0xff) as u8);
    out.push(((x >> 24) & 0xff) as u8);
    assert(final(out)@ =~= old(out)@ + le32(x));
}

/// Reads the little-endian word at `at`.
pub fn read_u32(b: &[u8], at: usize) -> (r: u32)
    requires
        at + 4 <= b@.len(),
    ensures
        r == read32(b@, at as int),
{
    (b[at] as u32) | ((b[at + 1] as u32) << 8) | ((b[at + 2] as u32) << 16) | ((b[at + 3] as u32) << 24)
}

/// The eight bytes of a header: sender id, then opcode and size packed in
/// one word.
pub fn encode_header(h: MessageHeader) -> (r: Vec<u8>)
    ensures
        r@ == header_bytes(h),
{
    let mut out: Vec<u8> = Vec::new();
    push_u32(&mut out, h.sender_id);
    push_u32(&mut out, (h.opcode as u32) | ((h.size as u32) << 16));
    assert(out@ =~= header_bytes(h));
    out
}

/// The header at the start of `b`; `None` when fewer than eight bytes are there.
pub fn decode_header(b: &[u8]) -> (r: Option<MessageHeader>)
    ensures
        b@.len() < 8 ==> r is None,
        b@.len() >= 8 ==> r == Some(header_at(b@)),
{
    if b.len() < 8 {
        return None;
    }
    let w = read_u32(b, 4);
    Some(MessageHeader { sender_id: read_u32(b, 0), opcode: (w & 0xffff) as u16, size: (w >> 16) as u16 })
}

/// The list `prefix` followed by what `rest` decoded, if it did.
pub open spec fn prepend(prefix: Seq<ArgumentView>, rest: Option<Seq<ArgumentView>>) -> Option<
    Seq<ArgumentView>,
> {
    match rest {
        Some(r) => Some(prefix + r),
        None => None,
    }
}

/// How many zero bytes bring `n` bytes up to a multiple of four.
pub fn padding(n: u32) -> (r: u32)
    ensures
        r == pad4(n as nat),
        r <= 3,
{
    (4 - n % 4) % 4
}

/// Appends the bytes of `src`.
pub fn push_bytes(out: &mut Vec<u8>, src: &[u8])
    ensures
        final(out)@ == old(out)@ + src@,
{
    let mut i: usize = 0;
    while i < src.len()
        invariant
            i <= src@.len(),
            out@ == old(out)@ + src@.take(i as int),
        decreases src@.len() - i,
    {
        out.push(src[i]);
        i = i + 1;
        assert(out@ =~= old(out)@ + src@.take(i as int));
    }
    assert(src@.take(src@.len() as int) =~= src@);
}

/// Appends `n` zero bytes.
pub fn push_zeros(out: &mut Vec<u8>, n: u32)
    ensures
        final(out)@ == old(out)@ + zeros(n as nat),
{
    let mut i: u32 = 0;
    while i < n
        invariant
            i <= n,
            out@ == old(out)@ + zeros(i as nat),
        decreases n - i,
    {
        out.push(0u8);
        i = i + 1;
        assert(out@ =~= old(out)@ + zeros(i as nat));
    }
}

/// The bytes `b[start..end]`, copied.
pub fn copy_bytes(b: &[u8], start: usize, end: usize) -> (r: Vec<u8>)
    requires
        start <= end <= b@.len(),
    ensures
        r@ == b@.subrange(start as int, end as int),
{
    let mut out: Vec<u8> = Vec::new();
    let mut i: usize = start;
    while i < end
        invariant
            start <= i <= end,
            end <= b@.len(),
            out@ == b@.subrange(start as int, i as int),
        decreases end - i,
    {
        out.push(b[i]);
        i = i + 1;
        assert(out@ =~= b@.subrange(start as int, i as int));
    }
    out
}

/// Appends the bytes of one argument, and its file descriptor if it has one.
pub fn encode_argument(a: &Argument, out: &mut Vec<u8>, fds: &mut Vec<i32>)
    requires
        arg_fits(a@),
    ensures
        final(out)@ == old(out)@ + arg_bytes(a@),
        final(fds)@ == old(fds)@ + arg_fds(a@),
{
    match a {
        Argument::Int(v) => push_u32(out, *v as u32),
        Argument::Uint(v) => push_u32(out, *v),
        Argument::Fixed(v) => push_u32(out, *v as u32),
        Argument::Str(text) => {
            let n = (text.len() + 1) as u32;
            push_u32(out, n);
            push_bytes(out, text.as_slice());
            out.push(0u8);
            push_zeros(out, padding(n));
            assert(final(out)@ =~= old(out)@ + arg_bytes(a@));
        },
        Argument::Array(v) => {
            let n = v.len() as u32;
            push_u32(out, n);
            push_bytes(out, v.as_slice());
            push_zeros(out, padding(n));
            assert(final(out)@ =~= old(out)@ + arg_bytes(a@));
        },
        Argument::Object(id) => push_u32(out, *id),
        Argument::NewId(id) => push_u32(out, *id),
        Argument::Fd(fd) => {
            fds.push(*fd);
        },
    }
    assert(final(out)@ =~= old(out)@ + arg_bytes(a@));
    assert(final(fds)@ =~= old(fds)@ + arg_fds(a@));
}

/// Appends the bytes of the arguments in order, and their file descriptors.
pub fn encode_arguments(args: &Vec<Argument>, out: &mut Vec<u8>, fds: &mut Vec<i32>)
    requires
        forall|i: int| 0 <= i < args@.len() ==> arg_fits(#[trigger] args@[i]@),
    ensures
        final(out)@ == old(out)@ + args_bytes(views(args@)),
        final(fds)@ == old(fds)@ + args_fds(views(args@)),
{
    let mut i: usize = 0;
    while i < args.len()
        invariant
            i <= args@.len(),
            forall|i: int| 0 <= i < args@.len() ==> arg_fits(#[trigger] args@[i]@),
            out@ == old(out)@ + args_bytes(views(args@).take(i as int)),
            fds@ == old(fds)@ + args_fds(views(args@).take(i as int)),
        decreases args@.len() - i,
    {
        proof {
            assert(views(args@).take(i + 1).drop_last() =~= views(args@).take(i as int));
            assert(views(args@).take(i + 1).last() == args@[i as int]@);
        }
        encode_argument(&args[i], out, fds);
        i = i + 1;
        assert(out@ =~= old(out)@ + args_bytes(views(args@).take(i as int)));
        assert(fds@ =~= old(fds)@ + args_fds(views(args@).take(i as int)));
    }
    assert(views(args@).take(args@.len() as int) =~= views(args@));
}

/// Reads one argument of type `t` at byte `at`, taking a file descriptor
/// from `fd_at` if `t` carries one.
pub fn decode_argument(b: &[u8], at: usize, t: ArgumentType, fds: &[i32], fd_at: usize) -> (r: Option<
    (Argument, usize, usize),
>)
    ensures
        match r {
            Some((a, next, next_fd)) => decode_arg(b@, at as int, t, fds@, fd_at as int) == Some(
                (a@, next as int, next_fd as int),
            ),
            None => decode_arg(b@, at as int, t, fds@, fd_at as int) is None,
        },
{
    reveal(decode_arg);
    if t == ArgumentType::Fd {
        if fd_at < fds.len() {
            return Some((Argument::Fd(fds[fd_at]), at, fd_at + 1));
        } else {
            return None;
        }
    }
    if at > b.len() || b.len() - at < 4 {
        return None;
    }
    let w = read_u32(b, at);
    let start = at + 4;
    match t {
        ArgumentType::Int => Some((Argument::Int(w as i32), start, fd_at)),
        ArgumentType::Uint => Some((Argument::Uint(w), start, fd_at)),
        ArgumentType::Fixed => Some((Argument::Fixed(w as i32), start, fd_at)),
        ArgumentType::Object => Some((Argument::Object(w), start, fd_at)),
        ArgumentType::NewId => Some((Argument::NewId(w), start, fd_at)),
        _ => {
            let n = w as usize;
            let p = padding(w) as usize;
            if n > b.len() - start || p > b.len() - start - n {
                return None;
            }
            let next = start + n + p;
            if t == ArgumentType::Str {
                if n == 0 || b[start + n - 1] != 0 {
                    return None;
                }
                Some((Argument::Str(copy_bytes(b, start, start + n - 1)), next, fd_at))
            } else {
                Some((Argument::Array(copy_bytes(b, start, start + n)), next, fd_at))
            }
        },
    }
}

/// Reads the arguments of signature `sig` from `b`, which must hold them
/// and nothing more, taking file descriptors from `fds` in order.
pub fn decode_arguments(b: &[u8], sig: &[ArgumentType], fds: &[i32]) -> (r: Option<Vec<Argument>>)
    ensures
        match r {
            Some(v) => decode_args(b@, 0, sig@, fds@, 0) == Some(views(v@)),
            None => decode_args(b@, 0, sig@, fds@, 0) is None,
        },
{
    let mut out: Vec<Argument> = Vec::new();
    let mut at: usize = 0;
    let mut fd_at: usize = 0;
    let mut i: usize = 0;
    assert(sig@.subrange(0, sig@.len() as int) =~= sig@);
    assert(views(out@) + Seq::<ArgumentView>::empty() =~= Seq::<ArgumentView>::empty());
    while i < sig.len()
        invariant
            i <= sig@.len(),
            decode_args(b@, 0, sig@, fds@, 0) == prepend(
                views(out@),
                decode_args(b@, at as int, sig@.subrange(i as int, sig@.len() as int), fds@, fd_at as int),
            ),
        decreases sig@.len() - i,
    {
        let ghost rest = sig@.subrange(i as int, sig@.len() as int);
        assert(rest[0] == sig@[i as int]);
        assert(rest.subrange(1, rest.len() as int) =~= sig@.subrange(i + 1, sig@.len() as int));
        match decode_argument(b, at, sig[i], fds, fd_at) {
            Some((a, next, next_fd)) => {
                let ghost before = views(out@);
                out.push(a);
                assert(views(out@) =~= before.push(a@));
                proof {
                    let tail = decode_args(
                        b@,
                        next as int,
                        sig@.subrange(i + 1, sig@.len() as int),
                        fds@,
                        next_fd as int,
                    );
                    if tail is Some {
                        assert(before + (seq![a@] + tail->Some_0) =~= before.push(a@) + tail->Some_0);
                    }
                }
                at = next;
                fd_at = next_fd;
            },
            None => {
                return None;
            },
        }
        i = i + 1;
    }
    if at == b.len() {
        assert(views(out@) + Seq::<ArgumentView>::empty() =~= views(out@));
        Some(out)
    } else {
        None
    }
}

/// The signature that a list of arguments follows.
pub open spec fn arg_types(args: Seq<ArgumentView>) -> Seq<ArgumentType> {
    args.map_values(|a: ArgumentView| arg_type(a))
}

proof fn lemma_args_bytes_front(args: Seq<ArgumentView>)
    requires
        args.len() > 0,
    ensures
        args_bytes(args) == arg_bytes(args[0]) + args_bytes(args.subrange(1, args.len() as int)),
        args_fds(args) == arg_fds(args[0]) + args_fds(args.subrange(1, args.len() as int)),
    decreases args.len(),
{
    let rest = args.subrange(1, args.len() as int);
    if args.len() == 1 {
        assert(args.drop_last() =~= Seq::<ArgumentView>::empty());
        assert(rest =~= Seq::<ArgumentView>::empty());
        assert(args_bytes(args) =~= arg_bytes(args[0]) + args_bytes(rest));
        assert(args_fds(args) =~= arg_fds(args[0]) + args_fds(rest));
    } else {
        let init = args.drop_last();
        lemma_args_bytes_front(init);
        assert(init.subrange(1, init.len() as int) =~= rest.drop_last());
        assert(rest.last() == args.last());
        assert(init[0] == args[0]);
        assert(args_bytes(args) =~= arg_bytes(args[0]) + args_bytes(rest));
        assert(args_fds(args) =~= arg_fds(args[0]) + args_fds(rest));
    }
}

proof fn lemma_decode_one(p: Seq<u8>, a: ArgumentView, tail: Seq<u8>, q: Seq<i32>, qtail: Seq<i32>)
    requires
        arg_fits(a),
    ensures
        decode_arg(
            p + arg_bytes(a) + tail,
            p.len() as int,
            arg_type(a),
            q + arg_fds(a) + qtail,
            q.len() as int,
        ) == Some((a, (p.len() + arg_bytes(a).len()) as int, (q.len() + arg_fds(a).len()) as int)),
{
    reveal(decode_arg);
    let b = p + arg_bytes(a) + tail;
    let at = p.len() as int;
    let fds = q + arg_fds(a) + qtail;
    match a {
        ArgumentView::Fd(fd) => {
            assert(fds[q.len() as int] == fd);
        },
        _ => {
            let w: u32 = match a {
                ArgumentView::Int(v) => v as u32,
                ArgumentView::Uint(v) => v,
                ArgumentView::Fixed(v) => v as u32,
                ArgumentView::Str(s) => (s.len() + 1) as u32,
                ArgumentView::Array(v) => v.len() as u32,
                ArgumentView::Object(id) => id,
                ArgumentView::NewId(id) => id,
                ArgumentView::Fd(_) => 0,
            };
            assert(b.subrange(at, at + 4) =~= le32(w));
            lemma_read_le32(w, b, at);
            match a {
                ArgumentView::Int(v) => {
                    assert((v as u32) as i32 == v) by (bit_vector);
                },
                ArgumentView::Fixed(v) => {
                    assert((v as u32) as i32 == v) by (bit_vector);
                },
                ArgumentView::Str(s) => {
                    let n = s.len() + 1;
                    assert(b[at + 4 + n - 1] == 0u8);
                    assert(b.subrange(at + 4, at + 4 + n - 1) =~= s);
                },
                ArgumentView::Array(v) => {
                    assert(b.subrange(at + 4, at + 4 + v.len()) =~= v);
                },
                _ => {},
            }
        },
    }
}

proof fn lemma_decode_after(p: Seq<u8>, args: Seq<ArgumentView>, q: Seq<i32>)
    requires
        forall|i: int| 0 <= i < args.len() ==> arg_fits(#[trigger] args[i]),
    ensures
        decode_args(
            p + args_bytes(args),
            p.len() as int,
            arg_types(args),
            q + args_fds(args),
            q.len() as int,
        ) == Some(args),
    decreases args.len(),
{
    if args.len() == 0 {
        assert(p + args_bytes(args) =~= p);
        assert(arg_types(args) =~= Seq::<ArgumentType>::empty());
        assert(args =~= Seq::<ArgumentView>::empty());
    } else {
        let a = args[0];
        let rest = args.subrange(1, args.len() as int);
        lemma_args_bytes_front(args);
        let b = p + args_bytes(args);
        let fds = q + args_fds(args);
        assert(b =~= p + arg_bytes(a) + args_bytes(rest));
        assert(fds =~= q + arg_fds(a) + args_fds(rest));
        lemma_decode_one(p, a, args_bytes(rest), q, args_fds(rest));
        assert(arg_types(args)[0] == arg_type(a));
        assert(arg_types(args).subrange(1, args.len() as int) =~= arg_types(rest));
        assert forall|i: int| 0 <= i < rest.len() implies arg_fits(#[trigger] rest[i]) by {
            assert(rest[i] == args[i + 1]);
        }
        lemma_decode_after(p + arg_bytes(a), rest, q + arg_fds(a));
        assert(p + arg_bytes(a) + args_bytes(rest) =~= b);
        assert(q + arg_fds(a) + args_fds(rest) =~= fds);
        assert(seq![a] + rest =~= args);
    }
}

/// Decoding the bytes and file descriptors of a list of arguments, by the
/// signature they follow, gives the arguments back.
pub proof fn lemma_arguments_round_trip(args: Seq<ArgumentView>)
    requires
        forall|i: int| 0 <= i < args.len() ==> arg_fits(#[trigger] args[i]),
    ensures
        decode_args(args_bytes(args), 0, arg_types(args), args_fds(args), 0) == Some(args),
{
    lemma_decode_after(seq![], args, seq![]);
    assert(Seq::<u8>::empty() + args_bytes(args) =~= args_bytes(args));
    assert(Seq::<i32>::empty() + args_fds(args) =~= args_fds(args));
}

/// The bytes of a whole message: its header, whose size counts the header
/// too, then its arguments.
pub open spec fn message_bytes(sender_id: u32, opcode: u16, args: Seq<ArgumentView>) -> Seq<u8> {
    let body = args_bytes(args);
    header_bytes(MessageHeader { sender_id, opcode, size: (8 + body.len()) as u16 }) + body
}

/// The message at the start of `b`: its header, and the arguments of
/// signature `sig` that fill the rest of its declared size.
pub open spec fn decode_message_at(b: Seq<u8>, sig: Seq<ArgumentType>, fds: Seq<i32>) -> Option<
    (MessageHeader, Seq<ArgumentView>),
> {
    if b.len() >= 8 {
        let h = header_at(b);
        if 8 <= h.size <= b.len() {
            match decode_args(b.subrange(8, h.size as int), 0, sig, fds, 0) {
                Some(args) => Some((h, args)),
                None => None,
            }
        } else {
            None
        }
    } else {
        None
    }
}

/// Encodes a message: its bytes and the file descriptors that go beside
/// them; `None` when it would not fit the 16-bit size field.
pub fn encode_message(sender_id: u32, opcode: u16, args: &Vec<Argument>) -> (r: Option<
    (Vec<u8>, Vec<i32>),
>)
    requires
        forall|i: int| 0 <= i < args@.len() ==> arg_fits(#[trigger] args@[i]@),
    ensures
        r is Some <==> 8 + args_bytes(views(args@)).len() <= u16::MAX,
        r matches Some((bytes, fds)) ==> bytes@ == message_bytes(sender_id, opcode, views(args@))
            && fds@ == args_fds(views(args@)),
{
    let mut body: Vec<u8> = Vec::new();
    let mut fds: Vec<i32> = Vec::new();
    encode_arguments(args, &mut body, &mut fds);
    assert(body@ =~= args_bytes(views(args@)));
    assert(fds@ =~= args_fds(views(args@)));
    if body.len() > 0xffff - 8 {
        return None;
    }
    let size = (body.len() + 8) as u16;
    let mut out = encode_header(MessageHeader { sender_id, opcode, size });
    push_bytes(&mut out, body.as_slice());
    Some((out, fds))
}

/// Decodes the message at the start of `b` by signature `sig`, taking file
/// descriptors from `fds` in order; `None` when the header is short, its
/// size is below eight or beyond the bytes at hand, or the arguments do not
/// fill that size exactly.
pub fn decode_message(b: &[u8], sig: &[ArgumentType], fds: &[i32]) -> (r: Option<
    (MessageHeader, Vec<Argument>),
>)
    ensures
        match r {
            Some((h, args)) => decode_message_at(b@, sig@, fds@) == Some((h, views(args@))),
            None => decode_message_at(b@, sig@, fds@) is None,
        },
{
    let h = match decode_header(b) {
        Some(h) => h,
        None => {
            return None;
        },
    };
    let size = h.size as usize;
    if size < 8 || size > b.len() {
        return None;
    }
    let body = copy_bytes(b, 8, size);
    match decode_arguments(body.as_slice(), sig, fds) {
        Some(args) => Some((h, args)),
        None => None,
    }
}

/// Decoding an encoded message, by the signature its arguments follow,
/// gives back its header, with the size that counts header and arguments,
/// and its arguments.
pub proof fn lemma_message_round_trip(sender_id: u32, opcode: u16, args: Seq<ArgumentView>)
    requires
        forall|i: int| 0 <= i < args.len() ==> arg_fits(#[trigger] args[i]),
        8 + args_bytes(args).len() <= u16::MAX,
    ensures
        decode_message_at(message_bytes(sender_id, opcode, args), arg_types(args), args_fds(args))
            == Some(
            (
                MessageHeader { sender_id, opcode, size: (8 + args_bytes(args).len()) as u16 },
                args,
            ),
        ),
{
    let body = args_bytes(args);
    let h = MessageHeader { sender_id, opcode, size: (8 + body.len()) as u16 };
    let b = message_bytes(sender_id, opcode, args);
    lemma_header_round_trip(h);
    assert(header_at(b) == header_at(header_bytes(h))) by {
        let hb = header_bytes(h);
        assert(forall|i: int| 0 <= i < 8 ==> b[i] == hb[i]);
    }
    assert(b.subrange(8, h.size as int) =~= body);
    lemma_arguments_round_trip(args);
}

} // verus!
