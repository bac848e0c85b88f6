//! Purely lexical path canonicalization: resolves `.` and `..` segments into
//! a canonical comparison form without ever consulting the filesystem. A `..`
//! that escapes above the root of an absolute path is reported as an error
//! rather than silently clamped, so callers can decide the policy. Character
//! content is otherwise kept as-is: this form is for comparison against
//! policy lists, not for display.

use vstd::prelude::*;

verus! {

use vstd::string::StrSliceExecFns;
use vstd::string::StringExecFns;
use crate::text::push_char;

/// Why a path could not be normalized.
#[derive(Debug, Clone, Copy, PartialEq, Eq, Structural)]
pub enum NormalizeError {
    /// A `..` segment of an absolute path lexically escapes above the root.
    EscapesRoot,
}

/// The segments of a string split on `/`, empty segments kept; never empty
/// (the empty string has one empty segment).
pub open spec fn split_slash(s: Seq<char>) -> Seq<Seq<char>>
    decreases s.len(),
{
    if s.len() == 0 {
        seq![Seq::empty()]
    } else if s.last() == '/' {
        split_slash(s.drop_last()).push(Seq::empty())
    } else {
        let r = split_slash(s.drop_last());
        r.update(r.len() - 1, r.last().push(s.last()))
    }
}

/// Lexical resolution of the segments: empty and `.` segments are dropped,
/// `..` pops the previous kept segment; on an absolute path a `..` with
/// nothing left to pop is an escape above the root (`None`), on a relative
/// path it is kept.
pub open spec fn resolve_segs(segs: Seq<Seq<char>>, abs: bool) -> Option<Seq<Seq<char>>>
    decreases segs.len(),
{
    if segs.len() == 0 {
        Some(Seq::empty())
    } else {
        match resolve_segs(segs.drop_last(), abs) {
            None => None,
            Some(st) => {
                let seg = segs.last();
                if seg.len() == 0 || seg == seq!['.'] {
                    Some(st)
                } else if seg == seq!['.', '.'] {
                    if st.len() > 0 && st.last() != seq!['.', '.'] {
                        Some(st.drop_last())
                    } else if abs {
                        None
                    } else {
                        Some(st.push(seg))
                    }
                } else {
                    Some(st.push(seg))
                }
            },
        }
    }
}

/// The segments joined back with `/` separators.
pub open spec fn join_slash(segs: Seq<Seq<char>>) -> Seq<char>
    decreases segs.len(),
{
    if segs.len() == 0 {
        Seq::empty()
    } else if segs.len() == 1 {
        segs[0]
    } else {
        join_slash(segs.drop_last()) + seq!['/'] + segs.last()
    }
}

/// The canonical form of a path, or `None` where a `..` of an absolute path
/// escapes above the root. An absolute result keeps its leading `/`; an empty
/// relative result is `.`.
pub open spec fn normalize_spec(s: Seq<char>) -> Option<Seq<char>> {
    let abs = s.len() > 0 && s[0] == '/';
    let body = if abs {
        s.skip(1)
    } else {
        s
    };
    match resolve_segs(split_slash(body), abs) {
        None => None,
        Some(st) => Some(
            if abs {
                seq!['/'] + join_slash(st)
            } else if st.len() == 0 {
                seq!['.']
            } else {
                join_slash(st)
            },
        ),
    }
}

/// True when the string is exactly one `.`.
fn is_dot(seg: &String) -> (r: bool)
    ensures
        r == (seg@ == seq!['.']),
{
    let n = seg.as_str().unicode_len();
    if n == 1 {
        let r = seg.as_str().get_char(0) == '.';
        proof {
            if r {
                assert(seg@ =~= seq!['.']);
            }
        }
        r
    } else {
        false
    }
}

/// True when the string is exactly `..`.
fn is_dot_dot(seg: &String) -> (r: bool)
    ensures
        r == (seg@ == seq!['.', '.']),
{
    let n = seg.as_str().unicode_len();
    if n == 2 {
        let r = seg.as_str().get_char(0) == '.' && seg.as_str().get_char(1) == '.';
        proof {
            if r {
                assert(seg@ =~= seq!['.', '.']);
            }
        }
        r
    } else {
        false
    }
}

/// The view of each segment in the list.
pub open spec fn seg_views(segs: Seq<String>) -> Seq<Seq<char>> {
    segs.map_values(|t: String| t@)
}

/// Canonicalize a path lexically: resolve `.` and `..` segments, keeping the
/// rest of the text as it stands. No filesystem access; total over any input.
/// A `..` escaping above the root of an absolute path is an error.
pub fn normalize_path(text: &str) -> (r: Result<String, NormalizeError>)
    ensures
        r matches Ok(t) ==> normalize_spec(text@) == Some(t@),
        r matches Err(e) ==> normalize_spec(text@) is None && e == NormalizeError::EscapesRoot,
{
    let n = text.unicode_len();
    let abs = n > 0 && text.get_char(0) == '/';
    let start: usize = if abs {
        1
    } else {
        0
    };
    let ghost body: Seq<char> = if abs {
        text@.skip(1)
    } else {
        text@
    };

    // split the body on '/'
    let mut segs: Vec<String> = Vec::new();
    let mut cur = String::new();
    proof {
        assert(seg_views(segs@).push(cur@) =~~= split_slash(body.take(0)));
    }
    let mut i: usize = start;
    while i < n
        invariant
            n == text@.len(),
            start <= i <= n,
            start == if abs { 1int } else { 0int },
            body == text@.skip(start as int),
            seg_views(segs@).push(cur@) =~~= split_slash(body.take(i - start)),
        decreases n - i,
    {
        let c = text.get_char(i);
        proof {
            assert(body.take(i + 1 - start).drop_last() =~= body.take(i - start));
            assert(body.take(i + 1 - start).last() == text@[i as int]);
        }
        if c == '/' {
            segs.push(cur);
            cur = String::new();
            proof {
                assert(seg_views(segs@).push(cur@) =~~= split_slash(body.take(i + 1 - start)));
            }
        } else {
            push_char(&mut cur, c);
            proof {
                let prev = split_slash(body.take(i - start));
                assert(seg_views(segs@).push(cur@) =~~= prev.update(
                    prev.len() - 1,
                    prev.last().push(text@[i as int]),
                ));
            }
        }
        i += 1;
    }
    segs.push(cur);
    proof {
        assert(body.take(n - start) =~= body);
        assert(seg_views(segs@) =~~= split_slash(body));
    }

    // resolve the segments against a stack
    let mut stack: Vec<String> = Vec::new();
    let mut j: usize = 0;
    let mut escaped = false;
    while j < segs.len()
        invariant
            j <= segs@.len(),
            !escaped ==> resolve_segs(seg_views(segs@.take(j as int)), abs) == Some(
                seg_views(stack@),
            ),
            escaped ==> resolve_segs(seg_views(segs@.take(j as int)), abs) is None,
        decreases segs@.len() - j,
    {
        proof {
            assert(seg_views(segs@.take(j + 1)).drop_last() =~~= seg_views(segs@.take(j as int)));
            assert(seg_views(segs@.take(j + 1)).last() == segs@[j as int]@);
        }
        if !escaped {
            let seg = &segs[j];
            if seg.as_str().unicode_len() == 0 || is_dot(seg) {
                // dropped
            } else if is_dot_dot(seg) {
                let can_pop = stack.len() > 0 && !is_dot_dot(&stack[stack.len() - 1]);
                if can_pop {
                    let ghost pre = seg_views(stack@);
                    stack.pop();
                    proof {
                        assert(seg_views(stack@) =~~= pre.drop_last());
                    }
                } else if abs {
                    escaped = true;
                } else {
                    let copy = seg.clone();
                    stack.push(copy);
                    proof {
                        assert(seg_views(stack@) =~~= seg_views(stack@.drop_last()).push(
                            segs@[j as int]@,
                        ));
                    }
                }
            } else {
                let copy = seg.clone();
                stack.push(copy);
                proof {
                    assert(seg_views(stack@) =~~= seg_views(stack@.drop_last()).push(
                        segs@[j as int]@,
                    ));
                }
            }
        }
        j += 1;
    }
    proof {
        assert(seg_views(segs@.take(segs@.len() as int)) =~~= seg_views(segs@));
    }
    if escaped {
        return Err(NormalizeError::EscapesRoot);
    }

    // join the kept segments back together
    let mut out = String::new();
    if abs {
        push_char(&mut out, '/');
    } else if stack.len() == 0 {
        push_char(&mut out, '.');
        proof {
            assert(out@ =~= seq!['.']);
        }
        return Ok(out);
    }
    let ghost prefix: Seq<char> = out@;
    let mut k: usize = 0;
    while k < stack.len()
        invariant
            k <= stack@.len(),
            out@ == prefix + join_slash(seg_views(stack@.take(k as int))),
            prefix == if abs { seq!['/'] } else { Seq::<char>::empty() },
        decreases stack@.len() - k,
    {
        proof {
            assert(seg_views(stack@.take(k + 1)).drop_last() =~~= seg_views(stack@.take(k as int)));
            assert(seg_views(stack@.take(k + 1)).last() == stack@[k as int]@);
        }
        if k > 0 {
            push_char(&mut out, '/');
        }
        out.append(stack[k].as_str());
        proof {
            assert(out@ =~= prefix + join_slash(seg_views(stack@.take(k + 1))));
        }
        k += 1;
    }
    proof {
        assert(seg_views(stack@.take(stack@.len() as int)) =~~= seg_views(stack@));
        assert(out@ =~= prefix + join_slash(seg_views(stack@)));
    }
    Ok(out)
}

} // verus!
