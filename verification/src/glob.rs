//! Shell-style path globs: a pattern is compiled into a small program over a
//! pool of bytes, and the program is run against paths.
//!
//! A pattern is made of literal bytes, `/` (a separator), `?` (one byte that
//! is no separator), `*` (any run of bytes without a separator), `**` (any run
//! of bytes that ends before a separator or at the end of the path), classes
//! `[a-z0]` and `[!a-z0]`, and groups `{x,y,z}` of alternatives, which nest.

use vstd::prelude::*;
use vstd::slice::slice_subrange;

verus! {

/// The pattern is no glob: a group is not closed, a class is not closed or
/// holds an inverted range, a `}` or `,` stands outside a group, or `**` is
/// followed by something other than `/` or the end of the pattern.
#[derive(Debug, Clone, Copy, PartialEq, Eq, Structural)]
pub struct InvalidGlobError;

/// One instruction of a compiled glob.
#[derive(Debug, Clone, Copy, PartialEq, Eq, Structural)]
pub enum Op {
    /// The bytes `from..to` of the pool, literally.
    Slice { from: usize, to: usize },
    /// One separator.
    Separator,
    /// `len` bytes, none of them a separator.
    Skip { len: usize },
    /// Any run of bytes that holds no separator.
    Many,
    /// Nothing, or everything up to some later separator.
    ManyComponents,
    /// One byte that lies in one of the `count` ranges stored as pairs of
    /// bounds from `start` on in the pool.
    AnyWithinRanges { start: usize, count: usize },
    /// One byte that lies outside one of the `count` ranges stored as pairs
    /// of bounds from `start` on in the pool.
    ExceptWithinRanges { start: usize, count: usize },
    /// A group of alternatives that fills the next `len` instructions.
    SubPatternGroup { len: usize },
    /// The head of one alternative, which fills the next `len` instructions.
    SubPattern { len: usize },
}

pub struct Glob {
    bytes: Vec<u8>,
    ops: Vec<Op>,
}

/// What is left to run once the current stretch of instructions is done: a
/// stack of stretches `from..to`, the innermost on top.
pub enum Continuation<'a> {
    Done,
    Then(usize, usize, &'a Continuation<'a>),
}

pub open spec fn is_separator(b: u8) -> bool {
    b == 0x2f
}

/// None of the first `n` bytes of `path` is a separator.
pub open spec fn no_separator(path: Seq<u8>, n: int) -> bool {
    forall|i: int| 0 <= i < n ==> !is_separator(#[trigger] path[i])
}

/// `path` begins with `prefix`.
pub open spec fn starts_with(path: Seq<u8>, prefix: Seq<u8>) -> bool {
    prefix.len() <= path.len() && path.subrange(0, prefix.len() as int) == prefix
}

/// `b` lies within the `i`-th of the ranges stored as pairs from `start` on.
pub open spec fn within_range(pool: Seq<u8>, start: int, i: int, b: u8) -> bool {
    pool[start + 2 * i] <= b && b <= pool[start + 2 * i + 1]
}

/// `b` lies within one of the `count` ranges stored from `start` on.
pub open spec fn within_a_range(pool: Seq<u8>, start: int, count: int, b: u8) -> bool {
    exists|i: int| 0 <= i < count && #[trigger] within_range(pool, start, i, b)
}

/// `b` lies outside one of the `count` ranges stored from `start` on.
pub open spec fn outside_a_range(pool: Seq<u8>, start: int, count: int, b: u8) -> bool {
    exists|i: int| 0 <= i < count && !#[trigger] within_range(pool, start, i, b)
}

/// The number of instructions that a stack of stretches holds.
pub open spec fn pending(rest: Seq<(int, int)>) -> nat
    decreases rest.len(),
{
    if rest.len() == 0 {
        0
    } else {
        let top = rest.last();
        (if top.1 > top.0 {
            (top.1 - top.0) as nat
        } else {
            0
        }) + pending(rest.drop_last())
    }
}

/// The instructions `from..to`, followed by the stretches of `rest` from the
/// top down, take exactly `path`.
pub open spec fn matches_from(
    ops: Seq<Op>,
    pool: Seq<u8>,
    from: int,
    to: int,
    path: Seq<u8>,
    rest: Seq<(int, int)>,
) -> bool
    decreases
            (if to > from {
                (to - from) as nat
            } else {
                0
            }) + pending(rest),
            rest.len(),
            0int,
{
    if from < 0 || to > ops.len() {
        false
    } else if from >= to {
        if rest.len() == 0 {
            path.len() == 0
        } else {
            matches_from(ops, pool, rest.last().0, rest.last().1, path, rest.drop_last())
        }
    } else {
        match ops[from] {
            Op::Slice { from: start, to: end } => {
                &&& start <= end <= pool.len()
                &&& starts_with(path, pool.subrange(start as int, end as int))
                &&& matches_from(ops, pool, from + 1, to, path.skip(end - start), rest)
            },
            Op::Separator => {
                &&& path.len() > 0
                &&& is_separator(path[0])
                &&& matches_from(ops, pool, from + 1, to, path.skip(1), rest)
            },
            Op::Skip { len } => {
                &&& len <= path.len()
                &&& no_separator(path, len as int)
                &&& matches_from(ops, pool, from + 1, to, path.skip(len as int), rest)
            },
            Op::Many => matches_after_run(ops, pool, from + 1, to, path, rest, 0),
            Op::ManyComponents => matches_after_components(ops, pool, from + 1, to, path, rest, 0),
            Op::AnyWithinRanges { start, count } => {
                &&& path.len() > 0
                &&& start + 2 * count <= pool.len()
                &&& within_a_range(pool, start as int, count as int, path[0])
                &&& matches_from(ops, pool, from + 1, to, path.skip(1), rest)
            },
            Op::ExceptWithinRanges { start, count } => {
                &&& path.len() > 0
                &&& start + 2 * count <= pool.len()
                &&& outside_a_range(pool, start as int, count as int, path[0])
                &&& matches_from(ops, pool, from + 1, to, path.skip(1), rest)
            },
            Op::SubPatternGroup { len } => {
                proof {
                    let pushed = rest.push((from + 1 + len, to));
                    assert(pushed.drop_last() =~= rest);
                    assert(pushed.last() == (from + 1 + len, to));
                }
                from + 1 + len <= to && matches_alternative(
                    ops,
                    pool,
                    from + 1,
                    from + 1 + len,
                    path,
                    rest.push((from + 1 + len, to)),
                )
            },
            Op::SubPattern { .. } => false,
        }
    }
}

/// One of the alternatives that fill the instructions `from..to`, followed by
/// the stretches of `rest`, takes exactly `path`.
pub open spec fn matches_alternative(
    ops: Seq<Op>,
    pool: Seq<u8>,
    from: int,
    to: int,
    path: Seq<u8>,
    rest: Seq<(int, int)>,
) -> bool
    decreases
            (if to > from {
                (to - from) as nat
            } else {
                0
            }) + pending(rest),
            rest.len(),
            0int,
{
    if 0 <= from < to <= ops.len() {
        match ops[from] {
            Op::SubPattern { len } => {
                &&& from + 1 + len <= to
                &&& (matches_from(ops, pool, from + 1, from + 1 + len, path, rest)
                    || matches_alternative(ops, pool, from + 1 + len, to, path, rest))
            },
            _ => false,
        }
    } else {
        false
    }
}

/// The instructions `from..to`, then `rest`, take exactly what is left of
/// `path` after `k` or more of its bytes, where the bytes passed over from `k`
/// on hold no separator.
pub open spec fn matches_after_run(
    ops: Seq<Op>,
    pool: Seq<u8>,
    from: int,
    to: int,
    path: Seq<u8>,
    rest: Seq<(int, int)>,
    k: int,
) -> bool
    decreases
            (if to > from {
                (to - from) as nat
            } else {
                0
            }) + pending(rest),
            rest.len(),
            path.len() - k + 2,
{
    0 <= k <= path.len() && (matches_from(ops, pool, from, to, path.skip(k), rest) || (k
        < path.len() && !is_separator(path[k]) && matches_after_run(
        ops,
        pool,
        from,
        to,
        path,
        rest,
        k + 1,
    )))
}

/// The instructions `from..to`, then `rest`, take exactly what is left of
/// `path` from some place at or after `k` that is the start of the path or
/// holds a separator.
pub open spec fn matches_after_components(
    ops: Seq<Op>,
    pool: Seq<u8>,
    from: int,
    to: int,
    path: Seq<u8>,
    rest: Seq<(int, int)>,
    k: int,
) -> bool
    decreases
            (if to > from {
                (to - from) as nat
            } else {
                0
            }) + pending(rest),
            rest.len(),
            path.len() - k + 2,
{
    0 <= k <= path.len() && (((k == 0 || (k < path.len() && is_separator(path[k])))
        && matches_from(ops, pool, from, to, path.skip(k), rest)) || (k < path.len()
        && matches_after_components(ops, pool, from, to, path, rest, k + 1)))
}

pub const QUESTION_MARK: u8 = 0x3f;

pub const ASTERISK: u8 = 0x2a;

pub const SLASH: u8 = 0x2f;

pub const OPEN_BRACKET: u8 = 0x5b;

pub const CLOSE_BRACKET: u8 = 0x5d;

pub const EXCLAMATION_MARK: u8 = 0x21;

pub const HYPHEN: u8 = 0x2d;

pub const OPEN_BRACE: u8 = 0x7b;

pub const CLOSE_BRACE: u8 = 0x7d;

pub const COMMA: u8 = 0x2c;

/// The instructions with the last one replaced.
pub open spec fn with_last(ops: Seq<Op>, op: Op) -> Seq<Op> {
    ops.update(ops.len() - 1, op)
}

/// Reads the ranges of a class from `index` on, up to and including the `]`
/// that closes it, and appends their bounds to the pool: a lone byte stands
/// for the range from itself to itself. Gives the pool and the place behind
/// the `]`, or `None` where the class is not closed or a range is inverted.
pub open spec fn compiled_class(pattern: Seq<u8>, index: int, pool: Seq<u8>) -> Option<
    (Seq<u8>, int),
>
    decreases pattern.len() - index,
{
    if index < 0 || index >= pattern.len() {
        None
    } else if pattern[index] == CLOSE_BRACKET {
        Some((pool, index + 1))
    } else if index + 1 < pattern.len() && pattern[index + 1] == HYPHEN {
        if index + 2 >= pattern.len() || pattern[index + 2] == CLOSE_BRACKET || pattern[index + 2]
            < pattern[index] {
            None
        } else {
            compiled_class(pattern, index + 3, pool.push(pattern[index]).push(pattern[index + 2]))
        }
    } else {
        compiled_class(pattern, index + 1, pool.push(pattern[index]).push(pattern[index]))
    }
}

/// Translates the pattern from `index` on, up to its end or to a `}` or `,`
/// that closes the alternative being read, appending to the instructions
/// `ops` and to the pool. `first` is where the instructions of this stretch
/// begin: a `?` or a literal byte extends the instruction before it only
/// within the stretch. Gives the instructions, the pool and the place where
/// it stopped, or `None` where the pattern is no glob.
pub open spec fn compiled_items(
    pattern: Seq<u8>,
    index: int,
    ops: Seq<Op>,
    pool: Seq<u8>,
    first: int,
) -> Option<(Seq<Op>, Seq<u8>, int)>
    decreases pattern.len() - index, 1int,
{
    if index < 0 {
        None
    } else if index >= pattern.len() {
        Some((ops, pool, index))
    } else {
        let b = pattern[index];
        if b == QUESTION_MARK {
            let extended = if ops.len() > first {
                match ops.last() {
                    Op::Skip { len } => if len < usize::MAX {
                        Some(with_last(ops, Op::Skip { len: (len + 1) as usize }))
                    } else {
                        None
                    },
                    _ => None,
                }
            } else {
                None
            };
            compiled_items(
                pattern,
                index + 1,
                match extended {
                    Some(ops) => ops,
                    None => ops.push(Op::Skip { len: 1 }),
                },
                pool,
                first,
            )
        } else if b == ASTERISK {
            if index + 1 < pattern.len() && pattern[index + 1] == ASTERISK {
                if index + 2 >= pattern.len() || pattern[index + 2] == SLASH {
                    compiled_items(pattern, index + 2, ops.push(Op::ManyComponents), pool, first)
                } else {
                    None
                }
            } else {
                compiled_items(pattern, index + 1, ops.push(Op::Many), pool, first)
            }
        } else if b == OPEN_BRACKET {
            let inverse = index + 1 < pattern.len() && pattern[index + 1] == EXCLAMATION_MARK;
            match compiled_class(
                pattern,
                if inverse {
                    index + 2
                } else {
                    index + 1
                },
                pool,
            ) {
                Some((filled, next)) => {
                    let start = pool.len() as usize;
                    let count = ((filled.len() - pool.len()) / 2) as usize;
                    if next <= index || next > pattern.len() {
                        None
                    } else {
                        compiled_items(
                            pattern,
                            next,
                            ops.push(
                                if inverse {
                                    Op::ExceptWithinRanges { start, count }
                                } else {
                                    Op::AnyWithinRanges { start, count }
                                },
                            ),
                            filled,
                            first,
                        )
                    }
                },
                None => None,
            }
        } else if b == CLOSE_BRACKET {
            None
        } else if b == OPEN_BRACE {
            match compiled_alternatives(
                pattern,
                index + 1,
                ops.push(Op::SubPatternGroup { len: 0 }),
                pool,
            ) {
                Some((grown, filled, next)) => {
                    if next <= index || next > pattern.len() {
                        None
                    } else {
                        let group = grown.update(
                            ops.len() as int,
                            Op::SubPatternGroup { len: (grown.len() - ops.len() - 1) as usize },
                        );
                        compiled_items(pattern, next, group, filled, group.len() as int)
                    }
                },
                None => None,
            }
        } else if b == CLOSE_BRACE || b == COMMA {
            Some((ops, pool, index))
        } else if b == SLASH {
            compiled_items(pattern, index + 1, ops.push(Op::Separator), pool, first)
        } else {
            let extended = if ops.len() > first {
                match ops.last() {
                    Op::Slice { from, to } => if to == pool.len() {
                        Some(with_last(ops, Op::Slice { from, to: (to + 1) as usize }))
                    } else {
                        None
                    },
                    _ => None,
                }
            } else {
                None
            };
            compiled_items(
                pattern,
                index + 1,
                match extended {
                    Some(ops) => ops,
                    None => ops.push(
                        Op::Slice { from: pool.len() as usize, to: (pool.len() + 1) as usize },
                    ),
                },
                pool.push(b),
                first,
            )
        }
    }
}

/// Translates the alternatives of a group from `index` on, up to and including
/// the `}` that closes it: each alternative becomes a `SubPattern` head that
/// counts the instructions behind it, followed by those instructions. Gives
/// the instructions, the pool and the place behind the `}`, or `None` where
/// the group is not closed or an alternative is no glob.
pub open spec fn compiled_alternatives(
    pattern: Seq<u8>,
    index: int,
    ops: Seq<Op>,
    pool: Seq<u8>,
) -> Option<(Seq<Op>, Seq<u8>, int)>
    decreases pattern.len() - index, 2int,
{
    match compiled_items(
        pattern,
        index,
        ops.push(Op::SubPattern { len: 0 }),
        pool,
        ops.len() as int + 1,
    ) {
        Some((grown, filled, stop)) => {
            let alternative = grown.update(
                ops.len() as int,
                Op::SubPattern { len: (grown.len() - ops.len() - 1) as usize },
            );
            if stop < index || stop >= pattern.len() {
                None
            } else if pattern[stop] == CLOSE_BRACE {
                Some((alternative, filled, stop + 1))
            } else if pattern[stop] == COMMA {
                compiled_alternatives(pattern, stop + 1, alternative, filled)
            } else {
                None
            }
        },
        None => None,
    }
}

/// The program that `pattern` compiles to: its instructions and its pool, or
/// `None` where the pattern is no glob.
pub open spec fn compiled(pattern: Seq<u8>) -> Option<(Seq<Op>, Seq<u8>)> {
    match compiled_items(pattern, 0, Seq::empty(), Seq::empty(), 0) {
        Some((ops, pool, stop)) => if stop == pattern.len() {
            Some((ops, pool))
        } else {
            None
        },
        None => None,
    }
}

impl<'a> Continuation<'a> {
    /// The stretches that are left, the next one last.
    pub open spec fn stack(&self) -> Seq<(int, int)>
        decreases self,
    {
        match self {
            Continuation::Done => Seq::empty(),
            Continuation::Then(from, to, next) => next.stack().push((*from as int, *to as int)),
        }
    }
}

fn is_path_separator(b: u8) -> (r: bool)
    ensures
        r == is_separator(b),
{
    b == 0x2f
}

/// Whether `b` lies within (or, with `outside`, outside) one of the `count`
/// ranges stored from `start` on in the pool.
fn byte_in_ranges(pool: &Vec<u8>, start: usize, count: usize, b: u8, outside: bool) -> (r: bool)
    requires
        start + 2 * count <= pool.len(),
    ensures
        r == if outside {
            outside_a_range(pool@, start as int, count as int, b)
        } else {
            within_a_range(pool@, start as int, count as int, b)
        },
{
    let mut i: usize = 0;
    while i < count
        invariant
            0 <= i <= count,
            start + 2 * count <= pool.len(),
            forall|j: int|
                0 <= j < i ==> (#[trigger] within_range(pool@, start as int, j, b)) == outside,
        decreases count - i,
    {
        let low = pool[start + 2 * i];
        let high = pool[start + 2 * i + 1];
        let within = low <= b && b <= high;
        assert(within == within_range(pool@, start as int, i as int, b));
        if within != outside {
            return true;
        }
        i = i + 1;
    }
    false
}

/// Runs the instructions `from..to` and then the stretches of `continuation`
/// against `path`.
#[verifier::loop_isolation(false)]
pub fn matches_recursive(
    ops: &Vec<Op>,
    bytes: &Vec<u8>,
    from: usize,
    to: usize,
    path: &[u8],
    continuation: &Continuation,
) -> (r: bool)
    ensures
        r == matches_from(ops@, bytes@, from as int, to as int, path@, continuation.stack()),
    decreases
            (if to > from {
                (to - from) as nat
            } else {
                0
            }) + pending(continuation.stack()),
            continuation.stack().len(),
            0int,
{
    if to > ops.len() {
        return false;
    }
    if from >= to {
        return match continuation {
            Continuation::Done => path.len() == 0,
            Continuation::Then(next_from, next_to, next) => {
                proof {
                    let stack = continuation.stack();
                    assert(stack.drop_last() =~= next.stack());
                    assert(stack.last() == (*next_from as int, *next_to as int));
                }
                matches_recursive(ops, bytes, *next_from, *next_to, path, next)
            },
        };
    }
    let len = path.len();
    match ops[from] {
        Op::Slice { from: start, to: end } => {
            if start > end || end > bytes.len() {
                return false;
            }
            let n = end - start;
            if len < n {
                return false;
            }
            let mut i: usize = 0;
            while i < n
                invariant
                    0 <= i <= n,
                    n == end - start,
                    end <= bytes.len(),
                    n <= path.len(),
                    forall|j: int| 0 <= j < i ==> path[j] == bytes[start + j],
                decreases n - i,
            {
                if path[i] != bytes[start + i] {
                    proof {
                        let prefix = bytes@.subrange(start as int, end as int);
                        assert(path@.subrange(0, n as int)[i as int] != prefix[i as int]);
                    }
                    return false;
                }
                i = i + 1;
            }
            proof {
                assert(path@.subrange(0, n as int) =~= bytes@.subrange(start as int, end as int));
            }
            matches_recursive(ops, bytes, from + 1, to, slice_subrange(path, n, len), continuation)
        },
        Op::Separator => {
            if len == 0 || !is_path_separator(path[0]) {
                return false;
            }
            matches_recursive(ops, bytes, from + 1, to, slice_subrange(path, 1, len), continuation)
        },
        Op::Skip { len: count } => {
            if len < count {
                return false;
            }
            let mut i: usize = 0;
            while i < count
                invariant
                    0 <= i <= count <= path.len(),
                    no_separator(path@, i as int),
                decreases count - i,
            {
                if is_path_separator(path[i]) {
                    return false;
                }
                i = i + 1;
            }
            matches_recursive(
                ops,
                bytes,
                from + 1,
                to,
                slice_subrange(path, count, len),
                continuation,
            )
        },
        Op::Many => {
            let mut k: usize = 0;
            loop
                invariant
                    0 <= k <= path.len(),
                    matches_from(
                        ops@,
                        bytes@,
                        from as int,
                        to as int,
                        path@,
                        continuation.stack(),
                    ) == matches_after_run(
                        ops@,
                        bytes@,
                        from + 1,
                        to as int,
                        path@,
                        continuation.stack(),
                        k as int,
                    ),
                decreases path.len() - k,
            {
                let tail = slice_subrange(path, k, len);
                assert(tail@ == path@.skip(k as int));
                if matches_recursive(ops, bytes, from + 1, to, tail, continuation) {
                    return true;
                }
                if k == len || is_path_separator(path[k]) {
                    return false;
                }
                k = k + 1;
            }
        },
        Op::ManyComponents => {
            let mut k: usize = 0;
            loop
                invariant
                    0 <= k <= path.len(),
                    matches_from(
                        ops@,
                        bytes@,
                        from as int,
                        to as int,
                        path@,
                        continuation.stack(),
                    ) == matches_after_components(
                        ops@,
                        bytes@,
                        from + 1,
                        to as int,
                        path@,
                        continuation.stack(),
                        k as int,
                    ),
                    k == 0 || (k < path.len() && is_separator(path[k as int])),
                decreases path.len() - k,
            {
                let tail = slice_subrange(path, k, len);
                assert(tail@ == path@.skip(k as int));
                if matches_recursive(ops, bytes, from + 1, to, tail, continuation) {
                    return true;
                }
                if k >= len {
                    return false;
                }
                let mut next = k + 1;
                while next < len && !is_path_separator(path[next])
                    invariant
                        k < next <= path.len(),
                        matches_from(
                            ops@,
                            bytes@,
                            from as int,
                            to as int,
                            path@,
                            continuation.stack(),
                        ) == matches_after_components(
                            ops@,
                            bytes@,
                            from + 1,
                            to as int,
                            path@,
                            continuation.stack(),
                            next as int,
                        ),
                    decreases path.len() - next,
                {
                    next = next + 1;
                }
                if next >= len {
                    return false;
                }
                k = next;
            }
        },
        Op::AnyWithinRanges { start, count } => {
            if len == 0 || start > bytes.len() || count > (bytes.len() - start) / 2 {
                return false;
            }
            if !byte_in_ranges(bytes, start, count, path[0], false) {
                return false;
            }
            matches_recursive(ops, bytes, from + 1, to, slice_subrange(path, 1, len), continuation)
        },
        Op::ExceptWithinRanges { start, count } => {
            if len == 0 || start > bytes.len() || count > (bytes.len() - start) / 2 {
                return false;
            }
            if !byte_in_ranges(bytes, start, count, path[0], true) {
                return false;
            }
            matches_recursive(ops, bytes, from + 1, to, slice_subrange(path, 1, len), continuation)
        },
        Op::SubPatternGroup { len: group_len } => {
            if group_len > to - from - 1 {
                return false;
            }
            let jump = from + 1 + group_len;
            let continuation = Continuation::Then(jump, to, continuation);
            let mut alternative = from + 1;
            proof {
                let pushed = continuation.stack();
                assert(pushed.drop_last() =~= old_stack(&continuation));
            }
            loop
                invariant
                    from < alternative <= jump <= to <= ops.len(),
                    matches_from(
                        ops@,
                        bytes@,
                        from as int,
                        to as int,
                        path@,
                        old_stack(&continuation),
                    ) == matches_alternative(
                        ops@,
                        bytes@,
                        alternative as int,
                        jump as int,
                        path@,
                        continuation.stack(),
                    ),
                    pending(continuation.stack()) == (to - jump) + pending(
                        old_stack(&continuation),
                    ),
                    continuation.stack().len() == old_stack(&continuation).len() + 1,
                decreases jump - alternative,
            {
                if alternative >= jump {
                    return false;
                }
                let alternative_len = match ops[alternative] {
                    Op::SubPattern { len } => len,
                    _ => {
                        return false;
                    },
                };
                if alternative_len > jump - alternative - 1 {
                    return false;
                }
                if matches_recursive(
                    ops,
                    bytes,
                    alternative + 1,
                    alternative + 1 + alternative_len,
                    path,
                    &continuation,
                ) {
                    return true;
                }
                alternative = alternative + 1 + alternative_len;
            }
        },
        Op::SubPattern { .. } => false,
    }
}

/// The stretches below the top of a continuation that has one.
pub open spec fn old_stack(continuation: &Continuation) -> Seq<(int, int)> {
    match continuation {
        Continuation::Done => Seq::empty(),
        Continuation::Then(_, _, next) => next.stack(),
    }
}

impl Glob {
    /// The empty glob, which matches the empty path only.
    pub fn new() -> (r: Self)
        ensures
            r.ops() == Seq::<Op>::empty(),
            r.pool() == Seq::<u8>::empty(),
    {
        Glob { bytes: Vec::new(), ops: Vec::new() }
    }

    /// The instructions of the compiled pattern.
    pub closed spec fn ops(&self) -> Seq<Op> {
        self.ops@
    }

    /// The bytes that the instructions refer to.
    pub closed spec fn pool(&self) -> Seq<u8> {
        self.bytes@
    }

    /// Whether the compiled pattern takes exactly `path`.
    pub open spec fn accepts(&self, path: Seq<u8>) -> bool {
        matches_from(self.ops(), self.pool(), 0, self.ops().len() as int, path, Seq::empty())
    }

    /// Compiles `pattern` into this glob, replacing what it held. Where the
    /// pattern is no glob, the glob is left empty.
    pub fn compile(&mut self, pattern: &[u8]) -> (r: Result<(), InvalidGlobError>)
        ensures
            match compiled(pattern@) {
                Some((ops, pool)) => r is Ok && final(self).ops() == ops && final(self).pool()
                    == pool,
                None => r is Err && final(self).ops() == Seq::<Op>::empty() && final(self).pool()
                    == Seq::<u8>::empty(),
            },
    {
        self.bytes.clear();
        self.ops.clear();
        let compiled = match self.compile_recursive(pattern, 0) {
            Ok(stop) => stop == pattern.len(),
            Err(_) => false,
        };
        if compiled {
            Ok(())
        } else {
            self.bytes.clear();
            self.ops.clear();
            Err(InvalidGlobError)
        }
    }

    /// Reads a class from `start` on, behind its `[` or `[!`.
    #[verifier::loop_isolation(false)]
    fn compile_class(&mut self, pattern: &[u8], start: usize) -> (r: Option<usize>)
        requires
            start <= pattern.len(),
        ensures
            final(self).ops == old(self).ops,
            match compiled_class(pattern@, start as int, old(self).bytes@) {
                Some((pool, next)) => r == Some(next as usize) && final(self).bytes@ == pool
                    && start < next <= pattern.len() && pool.len() >= old(self).bytes@.len(),
                None => r is None,
            },
    {
        let ghost goal = compiled_class(pattern@, start as int, self.bytes@);
        let len = pattern.len();
        let mut index = start;
        loop
            invariant
                start <= index <= pattern.len(),
                len == pattern.len(),
                self.ops == old(self).ops,
                self.bytes@.len() >= old(self).bytes@.len(),
                compiled_class(pattern@, index as int, self.bytes@) == goal,
            decreases pattern.len() - index,
        {
            if index >= len {
                return None;
            }
            let low = pattern[index];
            if low == CLOSE_BRACKET {
                return Some(index + 1);
            }
            if index + 1 < len && pattern[index + 1] == HYPHEN {
                if index + 2 >= len {
                    return None;
                }
                let high = pattern[index + 2];
                if high == CLOSE_BRACKET || high < low {
                    return None;
                }
                self.bytes.push(low);
                self.bytes.push(high);
                index = index + 3;
            } else {
                self.bytes.push(low);
                self.bytes.push(low);
                index = index + 1;
            }
        }
    }

    /// Translates the pattern from `start` on, up to its end or to the `}` or
    /// `,` that ends the alternative being read. Returns where it stopped.
    #[verifier::loop_isolation(false)]
    fn compile_recursive(&mut self, pattern: &[u8], start: usize) -> (r: Result<
        usize,
        InvalidGlobError,
    >)
        requires
            start <= pattern.len(),
        ensures
            match compiled_items(
                pattern@,
                start as int,
                old(self).ops@,
                old(self).bytes@,
                old(self).ops@.len() as int,
            ) {
                Some((ops, pool, stop)) => r == Ok::<usize, InvalidGlobError>(stop as usize)
                    && final(self).ops@ == ops && final(self).bytes@ == pool && start <= stop
                    <= pattern.len() && ops.len() >= old(self).ops@.len(),
                None => r is Err,
            },
        decreases pattern.len() - start, 1int,
    {
        let ghost goal = compiled_items(
            pattern@,
            start as int,
            self.ops@,
            self.bytes@,
            self.ops@.len() as int,
        );
        let len = pattern.len();
        let mut start_ops_index = self.ops.len();
        let mut index = start;
        loop
            invariant
                start <= index <= pattern.len(),
                len == pattern.len(),
                self.ops@.len() >= old(self).ops@.len(),
                compiled_items(pattern@, index as int, self.ops@, self.bytes@, start_ops_index as int)
                    == goal,
            decreases pattern.len() - index,
        {
            if index >= len {
                return Ok(index);
            }
            let b = pattern[index];
            if b == QUESTION_MARK {
                let count = self.ops.len();
                let mut extended = false;
                if count > start_ops_index {
                    if let Op::Skip { len: skipped } = self.ops[count - 1] {
                        if skipped < usize::MAX {
                            self.ops.set(count - 1, Op::Skip { len: skipped + 1 });
                            extended = true;
                        }
                    }
                }
                if !extended {
                    self.ops.push(Op::Skip { len: 1 });
                }
                index = index + 1;
            } else if b == ASTERISK {
                if index + 1 < len && pattern[index + 1] == ASTERISK {
                    if index + 2 >= len || pattern[index + 2] == SLASH {
                        self.ops.push(Op::ManyComponents);
                        index = index + 2;
                    } else {
                        return Err(InvalidGlobError);
                    }
                } else {
                    self.ops.push(Op::Many);
                    index = index + 1;
                }
            } else if b == OPEN_BRACKET {
                let inverse = index + 1 < len && pattern[index + 1] == EXCLAMATION_MARK;
                let ranges_start = self.bytes.len();
                let class_start = if inverse {
                    index + 2
                } else {
                    index + 1
                };
                let next = match self.compile_class(pattern, class_start) {
                    Some(next) => next,
                    None => {
                        return Err(InvalidGlobError);
                    },
                };
                let count = (self.bytes.len() - ranges_start) / 2;
                if inverse {
                    self.ops.push(Op::ExceptWithinRanges { start: ranges_start, count });
                } else {
                    self.ops.push(Op::AnyWithinRanges { start: ranges_start, count });
                }
                index = next;
            } else if b == CLOSE_BRACKET {
                return Err(InvalidGlobError);
            } else if b == OPEN_BRACE {
                let fix_index = self.ops.len();
                self.ops.push(Op::SubPatternGroup { len: 0 });
                let next = match self.compile_alternatives(pattern, index + 1) {
                    Ok(next) => next,
                    Err(_) => {
                        return Err(InvalidGlobError);
                    },
                };
                let ops_count = self.ops.len();
                self.ops.set(fix_index, Op::SubPatternGroup { len: ops_count - fix_index - 1 });
                start_ops_index = ops_count;
                index = next;
            } else if b == CLOSE_BRACE || b == COMMA {
                return Ok(index);
            } else if b == SLASH {
                self.ops.push(Op::Separator);
                index = index + 1;
            } else {
                let count = self.ops.len();
                let pool_len = self.bytes.len();
                let mut extended = false;
                if count > start_ops_index {
                    if let Op::Slice { from, to } = self.ops[count - 1] {
                        if to == pool_len {
                            self.bytes.push(b);
                            self.ops.set(count - 1, Op::Slice { from, to: self.bytes.len() });
                            extended = true;
                        }
                    }
                }
                if !extended {
                    self.bytes.push(b);
                    self.ops.push(Op::Slice { from: pool_len, to: self.bytes.len() });
                }
                index = index + 1;
            }
        }
    }

    /// Translates the alternatives of a group from `start` on, behind its `{`,
    /// up to and including the `}` that closes it. Returns the place behind it.
    #[verifier::loop_isolation(false)]
    fn compile_alternatives(&mut self, pattern: &[u8], start: usize) -> (r: Result<
        usize,
        InvalidGlobError,
    >)
        requires
            start <= pattern.len(),
        ensures
            match compiled_alternatives(pattern@, start as int, old(self).ops@, old(self).bytes@) {
                Some((ops, pool, next)) => r == Ok::<usize, InvalidGlobError>(next as usize)
                    && final(self).ops@ == ops && final(self).bytes@ == pool && start < next
                    <= pattern.len() && ops.len() >= old(self).ops@.len(),
                None => r is Err,
            },
        decreases pattern.len() - start, 2int,
    {
        let ghost goal = compiled_alternatives(pattern@, start as int, self.ops@, self.bytes@);
        let len = pattern.len();
        let mut index = start;
        loop
            invariant
                start <= index <= pattern.len(),
                len == pattern.len(),
                self.ops@.len() >= old(self).ops@.len(),
                compiled_alternatives(pattern@, index as int, self.ops@, self.bytes@) == goal,
            decreases pattern.len() - index,
        {
            let fix_index = self.ops.len();
            self.ops.push(Op::SubPattern { len: 0 });
            let stop = match self.compile_recursive(pattern, index) {
                Ok(stop) => stop,
                Err(_) => {
                    return Err(InvalidGlobError);
                },
            };
            let ops_count = self.ops.len();
            self.ops.set(fix_index, Op::SubPattern { len: ops_count - fix_index - 1 });
            if stop >= len {
                return Err(InvalidGlobError);
            }
            let b = pattern[stop];
            if b == CLOSE_BRACE {
                return Ok(stop + 1);
            } else if b == COMMA {
                index = stop + 1;
            } else {
                return Err(InvalidGlobError);
            }
        }
    }

    /// Whether the pattern matches the whole of `path`. The glob is not
    /// changed, so the answer depends on the pattern and the path alone.
    pub fn matches(&self, path: &[u8]) -> (r: bool)
        ensures
            r == self.accepts(path@),
    {
        matches_recursive(&self.ops, &self.bytes, 0, self.ops.len(), path, &Continuation::Done)
    }
}

impl Default for Glob {
    fn default() -> (r: Self)
        ensures
            r.ops() == Seq::<Op>::empty(),
            r.pool() == Seq::<u8>::empty(),
    {
        Glob::new()
    }
}

} // verus!
