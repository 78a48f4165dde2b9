use crate::chars::{char_is_space, chars_to_string, is_space_char, str_to_chars};
use crate::transpiler::{count_char, repeat_char};
use vstd::prelude::*;

verus! {

/// Rewrites whitespace from parenthesis nesting alone: after each line
/// break inside open parentheses it writes the configured indentation,
/// and it drops blank space standing directly before a closing
/// parenthesis.
pub struct Prettifier {
    indentation_character: char,
    number_of_indentation_characters: u8,
}

/// `out` with every trailing whitespace character removed.
pub open spec fn trim_trailing_ws(out: Seq<char>) -> Seq<char>
    decreases out.len(),
{
    if out.len() > 0 && is_space_char(out[out.len() - 1]) {
        trim_trailing_ws(out.subrange(0, out.len() - 1))
    } else {
        out
    }
}

/// What processing the text from position `i` on appends to `out`,
/// with `depth` parentheses standing open: each character is copied;
/// before a closing parenthesis trailing whitespace is dropped; after a
/// line break at positive depth the indentation character is written
/// `width × depth` times.
pub open spec fn prettify_from(
    s: Seq<char>,
    i: int,
    depth: int,
    out: Seq<char>,
    ch: char,
    width: int,
) -> Seq<char>
    decreases s.len() - i,
{
    if !(0 <= i < s.len()) {
        out
    } else {
        let c = s[i];
        let depth2 = depth + (if c == '(' {
            1int
        } else if c == ')' {
            -1int
        } else {
            0int
        });
        let out1 = if c == ')' {
            trim_trailing_ws(out)
        } else {
            out
        };
        let out2 = out1.push(c);
        let out3 = if c == '\n' && depth2 > 0 {
            out2 + repeat_char(ch, width * depth2)
        } else {
            out2
        };
        prettify_from(s, i + 1, depth2, out3, ch, width)
    }
}

/// What reindenting a whole text yields.
pub open spec fn prettify_spec(s: Seq<char>, ch: char, width: int) -> Seq<char> {
    prettify_from(s, 0, 0, Seq::empty(), ch, width)
}

/// Whether a text may be reindented: every closing parenthesis has some
/// non-whitespace character before it, so the dropping of blank space
/// never runs off the start of the output.
pub open spec fn prettify_safe(s: Seq<char>) -> bool {
    forall|i: int| #![trigger s[i]]
        0 <= i < s.len() && s[i] == ')' ==> exists|j: int| 0 <= j < i && !is_space_char(s[j])
}

/// Decides `prettify_safe`: the first non-whitespace character, if any,
/// must not be a closing parenthesis.
pub fn prettify_input_ok(text: &str) -> (r: bool)
    ensures
        r == prettify_safe(text@),
{
    let ghost s = text@;
    let src = str_to_chars(text);
    let mut i: usize = 0;
    while i < src.len()
        invariant
            i <= s.len(),
            s == src@,
            s == text@,
            forall|j: int| 0 <= j < i ==> is_space_char(#[trigger] s[j]),
        decreases s.len() - i,
    {
        let c = src[i];
        if !char_is_space(c) {
            if c == ')' {
                proof {
                    assert(s[i as int] == ')');
                    if prettify_safe(s) {
                        let j = choose|j: int| 0 <= j < i && !is_space_char(s[j]);
                        assert(is_space_char(s[j]));
                        assert(false);
                    }
                }
                return false;
            } else {
                proof {
                    assert(!is_space_char(s[i as int]));
                    assert forall|k: int| #![trigger s[k]]
                        0 <= k < s.len() && s[k] == ')' implies exists|j: int|
                        0 <= j < k && !is_space_char(s[j]) by {
                        assert(!is_space_char(')'));
                        assert(k != i);
                        if k < i {
                            assert(is_space_char(s[k]));
                            assert(false);
                        }
                        assert(0 <= i < k && !is_space_char(s[i as int]));
                    }
                    assert(prettify_safe(s));
                }
                return true;
            }
        }
        i += 1;
    }
    proof {
        assert forall|k: int| #![trigger s[k]]
            0 <= k < s.len() && s[k] == ')' implies exists|j: int|
            0 <= j < k && !is_space_char(s[j]) by {
            assert(is_space_char(s[k]));
            assert(!is_space_char(')'));
            assert(false);
        }
        assert(prettify_safe(s));
    }
    true
}

/// How many parentheses stand open just before position `i`.
pub open spec fn depth_at(s: Seq<char>, i: int) -> int {
    count_char(s.subrange(0, i), '(') - count_char(s.subrange(0, i), ')')
}

/// Whether no line break of the text stands inside open parentheses:
/// only then does reindenting have nothing to add.
pub open spec fn no_indented_newline(s: Seq<char>) -> bool {
    forall|i: int| #![trigger s[i]] 0 <= i < s.len() && s[i] == '\n' ==> depth_at(s, i) <= 0
}

/// Whether no closing parenthesis of the text stands first or directly
/// after whitespace: only then does reindenting have nothing to drop.
pub open spec fn no_ws_before_close(s: Seq<char>) -> bool {
    forall|i: int| #![trigger s[i]]
        0 <= i < s.len() && s[i] == ')' ==> i > 0 && !is_space_char(s[i - 1])
}

/// Whether some character of the text is not whitespace.
pub open spec fn has_nonws(s: Seq<char>) -> bool {
    exists|k: int| 0 <= k < s.len() && !is_space_char(s[k])
}

/// One more character moves the depth by that character's delta.
proof fn lemma_depth_step(s: Seq<char>, i: int)
    requires
        0 <= i < s.len(),
    ensures
        depth_at(s, i + 1) == depth_at(s, i) + (if s[i] == '(' {
            1int
        } else if s[i] == ')' {
            -1int
        } else {
            0int
        }),
{
    assert(s.subrange(0, i + 1).subrange(0, i) =~= s.subrange(0, i));
    assert(s.subrange(0, i + 1)[i] == s[i]);
}

/// What trimming trailing whitespace leaves: a prefix that ends in a
/// non-whitespace character where one exists, with only whitespace
/// dropped.
proof fn lemma_trim_props(out: Seq<char>)
    ensures
        trim_trailing_ws(out).len() <= out.len(),
        trim_trailing_ws(out) == out.subrange(0, trim_trailing_ws(out).len() as int),
        trim_trailing_ws(out).len() > 0 ==> !is_space_char(
            trim_trailing_ws(out)[trim_trailing_ws(out).len() - 1],
        ),
        forall|p: int|
            trim_trailing_ws(out).len() <= p < out.len() ==> is_space_char(#[trigger] out[p]),
        has_nonws(out) ==> trim_trailing_ws(out).len() > 0 && has_nonws(trim_trailing_ws(out)),
    decreases out.len(),
{
    if out.len() > 0 && is_space_char(out[out.len() - 1]) {
        let pre = out.subrange(0, out.len() - 1);
        lemma_trim_props(pre);
        assert(trim_trailing_ws(out) == trim_trailing_ws(pre));
        assert(pre.subrange(0, trim_trailing_ws(pre).len() as int) =~= out.subrange(
            0,
            trim_trailing_ws(pre).len() as int,
        ));
        assert forall|p: int|
            trim_trailing_ws(out).len() <= p < out.len() implies is_space_char(
            #[trigger] out[p],
        ) by {
            if p < out.len() - 1 {
                assert(pre[p] == out[p]);
                assert(is_space_char(pre[p]));
            }
        }
        if has_nonws(out) {
            let k = choose|k: int| 0 <= k < out.len() && !is_space_char(out[k]);
            assert(k < out.len() - 1);
            assert(pre[k] == out[k]);
            assert(has_nonws(pre));
        }
    } else {
        assert(trim_trailing_ws(out) == out);
        assert(out.subrange(0, out.len() as int) =~= out);
    }
}

/// Every character of a repetition is the repeated character.
proof fn lemma_repeat_index(c: char, k: int)
    ensures
        forall|p: int| 0 <= p < repeat_char(c, k).len() ==> repeat_char(c, k)[p] == c,
        repeat_char(c, k).len() == if k >= 0 {
            k
        } else {
            0
        },
    decreases k,
{
    if k > 0 {
        lemma_repeat_index(c, k - 1);
    }
}

/// Whatever text the reindenter has still to process, its output keeps
/// every closing parenthesis directly behind a non-whitespace
/// character, as long as the indentation character is not itself a
/// closing parenthesis and every remaining closing parenthesis has
/// something non-white to stand behind.
proof fn lemma_prettify_keeps_close_snug(
    s: Seq<char>,
    i: int,
    depth: int,
    out: Seq<char>,
    ch: char,
    w: int,
)
    requires
        0 <= i <= s.len(),
        ch != ')',
        no_ws_before_close(out),
        forall|j: int| #![trigger s[j]]
            i <= j < s.len() && s[j] == ')' ==> has_nonws(out) || (exists|l: int|
                i <= l < j && !is_space_char(s[l])),
    ensures
        no_ws_before_close(prettify_from(s, i, depth, out, ch, w)),
    decreases s.len() - i,
{
    if i < s.len() {
        let c = s[i];
        let depth2 = depth + (if c == '(' {
            1int
        } else if c == ')' {
            -1int
        } else {
            0int
        });
        let out1 = if c == ')' {
            trim_trailing_ws(out)
        } else {
            out
        };
        let out2 = out1.push(c);
        let out3 = if c == '\n' && depth2 > 0 {
            out2 + repeat_char(ch, w * depth2)
        } else {
            out2
        };
        lemma_trim_props(out);
        if c == ')' {
            assert(has_nonws(out)) by {
                assert(s[i] == ')');
            }
            assert(out1.len() > 0 && !is_space_char(out1[out1.len() - 1]));
            assert forall|p: int| 0 <= p < out2.len() && #[trigger] out2[p] == ')' implies p > 0
                && !is_space_char(out2[p - 1]) by {
                if p < out1.len() {
                    assert(out1[p] == out[p]);
                    assert(out[p] == ')');
                    assert(p > 0 && !is_space_char(out[p - 1]));
                    assert(out1[p - 1] == out[p - 1]);
                } else {
                    assert(p == out1.len());
                    assert(out2[p - 1] == out1[out1.len() - 1]);
                }
            }
            assert(no_ws_before_close(out2));
            assert(has_nonws(out2)) by {
                assert(!is_space_char(')'));
                assert(out2[out2.len() - 1] == ')');
            }
            lemma_prettify_keeps_close_snug(s, i + 1, depth2, out3, ch, w);
        } else {
            assert(out1 == out);
            assert forall|p: int| 0 <= p < out2.len() && #[trigger] out2[p] == ')' implies p > 0
                && !is_space_char(out2[p - 1]) by {
                if p < out.len() {
                    assert(out[p] == ')');
                    assert(out2[p - 1] == out[p - 1]);
                } else {
                    assert(out2[p] == c);
                    assert(c == ')');
                    assert(false);
                }
            }
            assert(no_ws_before_close(out2));
            if c == '\n' && depth2 > 0 {
                lemma_repeat_index(ch, w * depth2);
                assert forall|p: int| 0 <= p < out3.len() && #[trigger] out3[p] == ')' implies p
                    > 0 && !is_space_char(out3[p - 1]) by {
                    if p < out2.len() {
                        assert(out3[p] == out2[p]);
                        assert(out2[p] == ')');
                        assert(out3[p - 1] == out2[p - 1]);
                    } else {
                        assert(out3[p] == ch);
                        assert(false);
                    }
                }
                assert(no_ws_before_close(out3));
            }
            if !is_space_char(c) {
                assert(has_nonws(out3)) by {
                    assert(out3[out.len() as int] == c);
                }
                lemma_prettify_keeps_close_snug(s, i + 1, depth2, out3, ch, w);
            } else {
                assert forall|j: int| #![trigger s[j]]
                    i + 1 <= j < s.len() && s[j] == ')' implies has_nonws(out3) || (exists|l: int|
                    i + 1 <= l < j && !is_space_char(s[l])) by {
                    assert(i <= j < s.len() && s[j] == ')');
                    if has_nonws(out) {
                        let k = choose|k: int| 0 <= k < out.len() && !is_space_char(out[k]);
                        assert(out3[k] == out[k]);
                        assert(has_nonws(out3));
                    } else {
                        let l = choose|l: int| i <= l < j && !is_space_char(s[l]);
                        assert(l != i);
                        assert(i + 1 <= l < j && !is_space_char(s[l]));
                    }
                }
                lemma_prettify_keeps_close_snug(s, i + 1, depth2, out3, ch, w);
            }
        }
    }
}

/// Reindenting a text that already has nothing to drop and nothing to
/// add copies it unchanged.
proof fn lemma_prettify_identity_from(s: Seq<char>, i: int, ch: char, w: int)
    requires
        0 <= i <= s.len(),
        no_indented_newline(s),
        no_ws_before_close(s),
    ensures
        prettify_from(s, i, depth_at(s, i), s.subrange(0, i), ch, w) == s,
    decreases s.len() - i,
{
    if i == s.len() {
        assert(s.subrange(0, i) =~= s);
    } else {
        let c = s[i];
        lemma_depth_step(s, i);
        let depth2 = depth_at(s, i + 1);
        if c == ')' {
            assert(i > 0 && !is_space_char(s[i - 1]));
            assert(s.subrange(0, i)[i - 1] == s[i - 1]);
            assert(trim_trailing_ws(s.subrange(0, i)) == s.subrange(0, i));
        }
        assert(s.subrange(0, i).push(c) =~= s.subrange(0, i + 1));
        if c == '\n' {
            assert(depth_at(s, i) <= 0);
            assert(depth2 <= 0);
        }
        lemma_prettify_identity_from(s, i + 1, ch, w);
    }
}

/// Reindenting is idempotent wherever its first pass leaves no line
/// break inside open parentheses: a second pass then changes nothing.
pub proof fn lemma_prettify_idempotent(s: Seq<char>, ch: char, w: int)
    requires
        prettify_safe(s),
        ch != ')',
        no_indented_newline(prettify_spec(s, ch, w)),
    ensures
        prettify_spec(prettify_spec(s, ch, w), ch, w) == prettify_spec(s, ch, w),
{
    let t = prettify_spec(s, ch, w);
    assert(no_ws_before_close(t)) by {
        assert forall|j: int| #![trigger s[j]]
            0 <= j < s.len() && s[j] == ')' implies has_nonws(Seq::<char>::empty()) || (exists|
            l: int,
        | 0 <= l < j && !is_space_char(s[l])) by {}
        lemma_prettify_keeps_close_snug(s, 0, 0, Seq::empty(), ch, w);
    }
    assert(depth_at(t, 0) == 0) by {
        assert(t.subrange(0, 0) =~= Seq::<char>::empty());
    }
    assert(t.subrange(0, 0) =~= Seq::<char>::empty());
    lemma_prettify_identity_from(t, 0, ch, w);
}

/// Appends the indentation character `width × depth` times.
fn push_indent(out: &mut Vec<char>, c: char, depth: usize, width: usize)
    ensures
        final(out)@ == old(out)@ + repeat_char(c, (width as int) * (depth as int)),
{
    let mut t: usize = 0;
    proof {
        assert(old(out)@ + repeat_char(c, 0) =~= old(out)@);
    }
    while t < depth
        invariant
            t <= depth,
            out@ == old(out)@ + repeat_char(c, (width as int) * (t as int)),
        decreases depth - t,
    {
        let mut u: usize = 0;
        while u < width
            invariant
                u <= width,
                out@ == old(out)@ + repeat_char(c, (width as int) * (t as int) + u),
            decreases width - u,
        {
            out.push(c);
            proof {
                let k = (width as int) * (t as int) + u;
                assert(repeat_char(c, k + 1) == repeat_char(c, k).push(c));
                assert((old(out)@ + repeat_char(c, k)).push(c) =~= old(out)@ + repeat_char(
                    c,
                    k + 1,
                ));
            }
            u += 1;
        }
        proof {
            assert((width as int) * (t as int) + (width as int) == (width as int) * ((t as int)
                + 1)) by (nonlinear_arith);
        }
        t += 1;
    }
}

impl Prettifier {
    /// The configured indentation character.
    pub closed spec fn indent_char(&self) -> char {
        self.indentation_character
    }

    /// The configured indentation width.
    pub closed spec fn indent_width(&self) -> u8 {
        self.number_of_indentation_characters
    }

    /// A reindenter writing `number_of_indentation_characters` copies of
    /// `indentation_character` per open level.
    pub fn new(indentation_character: char, number_of_indentation_characters: u8) -> (r: Self)
        ensures
            r.indent_char() == indentation_character,
            r.indent_width() == number_of_indentation_characters,
    {
        Prettifier { indentation_character, number_of_indentation_characters }
    }

    /// Reindents the text from its own parenthesis nesting. The text's
    /// first non-whitespace character must not be a closing parenthesis:
    /// that is the contract under which dropped blank space always has
    /// something before it.
    pub fn prettify(&self, transpiled_code: String) -> (r: String)
        requires
            prettify_safe(transpiled_code@),
        ensures
            r@ == prettify_spec(transpiled_code@, self.indent_char(), self.indent_width() as int),
    {
        let ghost s = transpiled_code@;
        let ghost ch = self.indent_char();
        let ghost w = self.indent_width() as int;
        let src = str_to_chars(transpiled_code.as_str());
        let mut out: Vec<char> = Vec::new();
        let mut opens: usize = 0;
        let mut closes: usize = 0;
        let mut i: usize = 0;
        proof {
            assert(out@ =~= Seq::<char>::empty());
        }
        while i < src.len()
            invariant
                i <= s.len(),
                s == src@,
                opens <= i,
                closes <= i,
                ch == self.indent_char(),
                w == self.indent_width() as int,
                prettify_spec(s, ch, w) == prettify_from(s, i as int, opens - closes, out@, ch, w),
            decreases s.len() - i,
        {
            let ghost out0 = out@;
            let ghost depth0 = opens - closes;
            let c = src[i];
            if c == '(' {
                opens += 1;
            } else if c == ')' {
                closes += 1;
            }
            let ghost depth2 = opens - closes;
            if c == ')' {
                while out.len() > 0 && char_is_space(out[out.len() - 1])
                    invariant
                        trim_trailing_ws(out0) == trim_trailing_ws(out@),
                    decreases out@.len(),
                {
                    proof {
                        assert(out@.subrange(0, out@.len() - 1) =~= out@.drop_last());
                    }
                    out.pop();
                }
                proof {
                    assert(trim_trailing_ws(out@) == out@);
                }
            }
            out.push(c);
            if c == '\n' && opens > closes {
                let width: usize = self.number_of_indentation_characters as usize;
                push_indent(&mut out, self.indentation_character, opens - closes, width);
            }
            i += 1;
            proof {
                assert(prettify_from(s, i - 1, depth0, out0, ch, w) == prettify_from(
                    s,
                    i as int,
                    depth2,
                    out@,
                    ch,
                    w,
                ));
            }
        }
        chars_to_string(&out)
    }
}

} // verus!
