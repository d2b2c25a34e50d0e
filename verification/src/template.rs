//! The prompt template's conditional blocks.
//!
//! A template may hold spans `{{#if name}} ... {{/if}}`. When the data
//! they need is present the span is replaced with rendered content;
//! otherwise the whole span is removed, together with the newline that
//! immediately follows it.

use vstd::prelude::*;
use vstd::string::StringSliceAdditionalSpecFns;

use crate::textscan::{first_sub, lemma_first_sub_props, occurs_at, sub_at};

verus! {

/// The opening tag of a conditional block.
pub open spec fn open_tag(var: Seq<u8>) -> Seq<u8> {
    "{{#if ".spec_bytes() + var + "}}".spec_bytes()
}

/// The closing tag of a conditional block.
pub open spec fn close_tag() -> Seq<u8> {
    "{{/if}}".spec_bytes()
}

/// Where a block's span ends: one past its closing tag, and past the
/// newline that immediately follows, when there is one.
pub open spec fn span_end(t: Seq<u8>, e: int) -> int {
    let cut = e + close_tag().len();
    if cut < t.len() && t[cut] == 10 {
        cut + 1
    } else {
        cut
    }
}

/// One replacement step: the first block of `var` replaced by
/// `content`; the template unchanged when no complete block exists.
pub open spec fn spec_replace_block(t: Seq<u8>, var: Seq<u8>, content: Seq<u8>) -> Seq<u8> {
    let s = first_sub(t, open_tag(var), 0);
    if s >= t.len() {
        t
    } else {
        let e = first_sub(t, close_tag(), s);
        if e >= t.len() {
            t
        } else {
            t.subrange(0, s) + content + t.subrange(span_end(t, e), t.len() as int)
        }
    }
}

/// All blocks of `var` removed, scanning left to right; the fuel
/// bounds the steps and a template's length always suffices.
pub open spec fn spec_remove_blocks(t: Seq<u8>, var: Seq<u8>, fuel: nat) -> Seq<u8>
    decreases fuel,
{
    if fuel == 0 {
        t
    } else {
        let s = first_sub(t, open_tag(var), 0);
        if s >= t.len() {
            t
        } else {
            let e = first_sub(t, close_tag(), s);
            if e >= t.len() {
                t
            } else {
                spec_remove_blocks(
                    t.subrange(0, s) + t.subrange(span_end(t, e), t.len() as int),
                    var,
                    (fuel - 1) as nat,
                )
            }
        }
    }
}

/// Build the opening tag's bytes.
fn open_tag_exec(var: &[u8]) -> (r: Vec<u8>)
    ensures
        r@ == open_tag(var@),
{
    let mut out: Vec<u8> = Vec::new();
    out.extend_from_slice("{{#if ".as_bytes());
    out.extend_from_slice(var);
    out.extend_from_slice("}}".as_bytes());
    proof {
        assert(out@ =~= open_tag(var@));
    }
    out
}

/// Copy `t[a..b]` into `out`.
fn push_range(out: &mut Vec<u8>, t: &[u8], a: usize, b: usize)
    requires
        a <= b <= t@.len(),
    ensures
        final(out)@ == old(out)@ + t@.subrange(a as int, b as int),
{
    let mut i = a;
    while i < b
        invariant
            a <= i <= b <= t@.len(),
            out@ == old(out)@ + t@.subrange(a as int, i as int),
        decreases b - i,
    {
        proof {
            assert(t@.subrange(a as int, i + 1) =~= t@.subrange(a as int, i as int).push(
                t@[i as int],
            ));
            assert((old(out)@ + t@.subrange(a as int, i + 1)) =~= (old(out)@ + t@.subrange(
                a as int,
                i as int,
            )).push(t@[i as int]));
        }
        out.push(t[i]);
        i += 1;
    }
    proof {
        if a == b {
            assert(t@.subrange(a as int, a as int) =~= Seq::<u8>::empty());
            assert(old(out)@ + t@.subrange(a as int, a as int) =~= old(out)@);
        }
    }
}

/// Find one complete block: the start of its opening tag and the start
/// of its closing tag.
fn find_block(t: &[u8], tag: &[u8]) -> (r: Option<(usize, usize)>)
    ensures
        ({
            let s = first_sub(t@, tag@, 0);
            match r {
                Some((rs, re)) => {
                    &&& rs == s < t@.len()
                    &&& re == first_sub(t@, close_tag(), rs as int) < t@.len()
                },
                None => s >= t@.len() || first_sub(t@, close_tag(), s) >= t@.len(),
            }
        }),
{
    let s = crate::textscan::find_first(t, tag);
    if s >= t.len() {
        return None;
    }
    // Scan for the closing tag at or after the opening tag.
    let close = "{{/if}}".as_bytes();
    proof {
        lemma_first_sub_props(t@, close@, s as int);
    }
    let n = t.len();
    let mut e = s;
    while e < n
        invariant
            s <= e <= n,
            s < n,
            sub_at(t@, tag@, s as int),
            s == first_sub(t@, tag@, 0),
            n == t@.len(),
            close@ == close_tag(),
            e <= first_sub(t@, close_tag(), s as int),
            first_sub(t@, close_tag(), s as int) == first_sub(t@, close_tag(), e as int),
        decreases n - e,
    {
        if close.len() <= n && e <= n - close.len() && occurs_at(t, close, e) {
            proof {
                assert(sub_at(t@, close_tag(), e as int));
                assert(first_sub(t@, close_tag(), e as int) == e as int);
            }
            return Some((s, e));
        }
        proof {
            if sub_at(t@, close_tag(), e as int) {
                assert(e + close_tag().len() <= t@.len());
            }
        }
        e += 1;
        proof {
            lemma_first_sub_props(t@, close@, e as int);
        }
    }
    None
}

/// Replace the first `{{#if var}} ... {{/if}}` block with `content`;
/// a template without a complete block comes back unchanged.
pub fn replace_conditional_block(template: &[u8], var: &[u8], content: &[u8]) -> (r: Vec<u8>)
    ensures
        r@ == spec_replace_block(template@, var@, content@),
{
    let tag = open_tag_exec(var);
    match find_block(template, tag.as_slice()) {
        Some((s, e)) => {
            let close_len: usize = 7;
            let tlen = template.len();
            proof {
                reveal_strlit("{{/if}}");
                vstd::string::is_ascii_spec_bytes("{{/if}}");
                assert(close_tag().len() == 7);
                lemma_first_sub_props(template@, close_tag(), s as int);
                assert(sub_at(template@, close_tag(), e as int));
                assert(e + 7 <= tlen);
            }
            let mut cut = e + close_len;
            if cut < template.len() && template[cut] == 10 {
                cut += 1;
            }
            let mut out: Vec<u8> = Vec::new();
            push_range(&mut out, template, 0, s);
            out.extend_from_slice(content);
            push_range(&mut out, template, cut, template.len());
            proof {
                assert(out@ =~= spec_replace_block(template@, var@, content@));
            }
            out
        }
        None => {
            let mut out: Vec<u8> = Vec::new();
            push_range(&mut out, template, 0, template.len());
            proof {
                assert(template@.subrange(0, template@.len() as int) =~= template@);
                assert(out@ =~= template@);
            }
            out
        }
    }
}

/// Remove every `{{#if var}} ... {{/if}}` block, with the newline each
/// one drags behind it.
pub fn remove_conditional_blocks(template: &[u8], var: &[u8]) -> (r: Vec<u8>)
    ensures
        r@ == spec_remove_blocks(template@, var@, template@.len() as nat),
{
    let tag = open_tag_exec(var);
    let mut cur: Vec<u8> = Vec::new();
    push_range(&mut cur, template, 0, template.len());
    proof {
        assert(template@.subrange(0, template@.len() as int) =~= template@);
        assert(cur@ =~= template@);
    }
    let mut fuel = template.len();
    loop
        invariant
            tag@ == open_tag(var@),
            spec_remove_blocks(template@, var@, template@.len() as nat) == spec_remove_blocks(
                cur@,
                var@,
                fuel as nat,
            ),
        decreases fuel,
    {
        if fuel == 0 {
            proof {
                assert(spec_remove_blocks(cur@, var@, 0) == cur@);
            }
            return cur;
        }
        match find_block(cur.as_slice(), tag.as_slice()) {
            Some((s, e)) => {
                let ghost cur_before = cur@;
                let close_len: usize = 7;
                let clen = cur.len();
                proof {
                    reveal_strlit("{{/if}}");
                    vstd::string::is_ascii_spec_bytes("{{/if}}");
                    assert(close_tag().len() == 7);
                    lemma_first_sub_props(cur@, close_tag(), s as int);
                    assert(sub_at(cur@, close_tag(), e as int));
                    assert(e + 7 <= clen);
                }
                let mut cut = e + close_len;
                if cut < cur.len() && cur[cut] == 10 {
                    cut += 1;
                }
                let mut next: Vec<u8> = Vec::new();
                push_range(&mut next, cur.as_slice(), 0, s);
                push_range(&mut next, cur.as_slice(), cut, cur.len());
                proof {
                    assert(next@ =~= cur_before.subrange(0, s as int) + cur_before.subrange(
                        span_end(cur_before, e as int),
                        cur_before.len() as int,
                    ));
                    assert(spec_remove_blocks(cur_before, var@, fuel as nat)
                        == spec_remove_blocks(next@, var@, (fuel - 1) as nat));
                }
                cur = next;
                fuel -= 1;
            }
            None => {
                proof {
                    assert(spec_remove_blocks(cur@, var@, fuel as nat) == cur@);
                }
                return cur;
            }
        }
    }
}

} // verus!
