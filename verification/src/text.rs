//! Placeholder substitution in file contents.
//!
//! A template file is text when its bytes are valid UTF-8. In text files every
//! occurrence of the placeholder token is replaced by the project name; any
//! other file is treated as a binary asset and kept byte-for-byte.

use vstd::prelude::*;

verus! {

use vstd::utf8::encode_utf8;
use vstd::utf8::pop_first_scalar;
use vstd::utf8::valid_first_scalar;
use vstd::utf8::valid_utf8;
use vstd::string::StrSliceExecFns;
use vstd::string::StringSliceAdditionalSpecFns;

/// The literal token replaced by the project name, as a character sequence.
pub open spec fn placeholder_chars() -> Seq<char> {
    "{{project-name}}"@
}

/// The UTF-8 bytes of the placeholder token.
pub open spec fn placeholder_bytes() -> Seq<u8> {
    encode_utf8(placeholder_chars())
}

/// The placeholder token is sixteen ASCII characters, so its UTF-8 encoding
/// is sixteen bytes long.
pub proof fn lemma_placeholder_len()
    ensures
        placeholder_bytes().len() == 16,
{
    reveal_strlit("{{project-name}}");
    assert(vstd::utf8::is_ascii_chars(placeholder_chars())) by {
        assert(forall|i: int|
            0 <= i < placeholder_chars().len() ==> '\0' <= #[trigger] placeholder_chars()[i]
                <= '\u{7f}');
    }
    vstd::utf8::is_ascii_chars_encode_utf8(placeholder_chars());
}

/// The placeholder token as executable text.
pub fn placeholder_token() -> (r: &'static str)
    ensures
        r@ == placeholder_chars(),
{
    "{{project-name}}"
}

/// One left-to-right pass over `s`: at each position, if `pat` starts there,
/// emit `rep` and continue after the match, otherwise emit the byte and move
/// one forward. This is the replacement of every (non-overlapping, leftmost)
/// occurrence of `pat` by `rep`.
pub open spec fn replace_bytes(s: Seq<u8>, pat: Seq<u8>, rep: Seq<u8>) -> Seq<u8>
    decreases s.len(),
{
    if pat.len() == 0 || s.len() < pat.len() {
        s
    } else if s.take(pat.len() as int) == pat {
        rep + replace_bytes(s.skip(pat.len() as int), pat, rep)
    } else {
        seq![s[0]] + replace_bytes(s.skip(1), pat, rep)
    }
}

/// The contents of one scaffolded file: text files get the placeholder
/// replaced by the project name, any other contents stay untouched.
pub open spec fn substituted(content: Seq<u8>, name_bytes: Seq<u8>) -> Seq<u8> {
    if valid_utf8(content) {
        replace_bytes(content, placeholder_bytes(), name_bytes)
    } else {
        content
    }
}

/// Decides whether the bytes are a valid UTF-8 encoding: every position
/// holds a well-formed scalar encoding — correct leading and continuation
/// bytes, no overlong form, no surrogate, nothing above the last scalar.
fn utf8_valid(v: &Vec<u8>) -> (r: bool)
    ensures
        r == valid_utf8(v@),
{
    let n = v.len();
    let mut i: usize = 0;
    proof {
        assert(v@.skip(0) =~= v@);
    }
    while i < n
        invariant
            n == v@.len(),
            0 <= i <= n,
            valid_utf8(v@) == valid_utf8(v@.skip(i as int)),
        decreases n - i,
    {
        let ghost s = v@.skip(i as int);
        let b0 = v[i];
        proof {
            assert(s[0] == v@[i as int]);
        }
        if b0 <= 0x7f {
            // One-byte scalar.
            proof {
                assert(b0 & 0x7f <= 0x7f) by (bit_vector);
                assert(valid_first_scalar(s));
                assert(pop_first_scalar(s) =~= v@.skip(i + 1));
            }
            i += 1;
        } else if 0xc0 <= b0 && b0 <= 0xdf {
            // Two-byte scalar: the leading byte must carry at least 0x80.
            if n - i < 2 {
                proof {
                    assert(!valid_first_scalar(s));
                }
                return false;
            }
            let b1 = v[i + 1];
            proof {
                assert(s[1] == v@[i + 1]);
            }
            if !(0x80 <= b1 && b1 <= 0xbf) {
                proof {
                    assert(!valid_first_scalar(s));
                }
                return false;
            }
            if b0 <= 0xc1 {
                // Overlong: the value fits in one byte.
                proof {
                    assert((((b0 & 0x1f) as u32) << 6) | ((b1 & 0x3f) as u32) < 0x80)
                        by (bit_vector)
                        requires
                            0xc0 <= b0 <= 0xc1,
                    ;
                    assert(!valid_first_scalar(s));
                }
                return false;
            }
            proof {
                assert(0x80 <= (((b0 & 0x1f) as u32) << 6) | ((b1 & 0x3f) as u32) < 0x800)
                    by (bit_vector)
                    requires
                        0xc2 <= b0 <= 0xdf,
                ;
                assert(valid_first_scalar(s));
                assert(pop_first_scalar(s) =~= v@.skip(i + 2));
            }
            i += 2;
        } else if 0xe0 <= b0 && b0 <= 0xef {
            // Three-byte scalar: at least 0x800, and never a surrogate.
            if n - i < 3 {
                proof {
                    assert(!valid_first_scalar(s));
                }
                return false;
            }
            let b1 = v[i + 1];
            let b2 = v[i + 2];
            proof {
                assert(s[1] == v@[i + 1]);
                assert(s[2] == v@[i + 2]);
            }
            if !(0x80 <= b1 && b1 <= 0xbf) || !(0x80 <= b2 && b2 <= 0xbf) {
                proof {
                    assert(!valid_first_scalar(s));
                }
                return false;
            }
            if b0 == 0xe0 && b1 < 0xa0 {
                // Overlong: the value fits in two bytes.
                proof {
                    assert((((b0 & 0x0f) as u32) << 12) | (((b1 & 0x3f) as u32) << 6) | ((b2
                        & 0x3f) as u32) < 0x800)
                        by (bit_vector)
                        requires
                            b0 == 0xe0 && 0x80 <= b1 < 0xa0,
                    ;
                    assert(!valid_first_scalar(s));
                }
                return false;
            }
            if b0 == 0xed && b1 >= 0xa0 {
                // A surrogate, not a scalar.
                proof {
                    assert(0xd800 <= (((b0 & 0x0f) as u32) << 12) | (((b1 & 0x3f) as u32) << 6)
                        | ((b2 & 0x3f) as u32) <= 0xdfff)
                        by (bit_vector)
                        requires
                            b0 == 0xed && 0xa0 <= b1 <= 0xbf && 0x80 <= b2 <= 0xbf,
                    ;
                    assert(!valid_first_scalar(s));
                }
                return false;
            }
            proof {
                let c = (((b0 & 0x0f) as u32) << 12) | (((b1 & 0x3f) as u32) << 6) | ((b2
                    & 0x3f) as u32);
                assert(0x800 <= c && !(0xd800 <= c <= 0xdfff)) by (bit_vector)
                    requires
                        c == (((b0 & 0x0f) as u32) << 12) | (((b1 & 0x3f) as u32) << 6) | ((b2
                            & 0x3f) as u32),
                        0xe0 <= b0 <= 0xef,
                        0x80 <= b1 <= 0xbf,
                        0x80 <= b2 <= 0xbf,
                        !(b0 == 0xe0 && b1 < 0xa0),
                        !(b0 == 0xed && b1 >= 0xa0),
                ;
                assert(valid_first_scalar(s));
                assert(pop_first_scalar(s) =~= v@.skip(i + 3));
            }
            i += 3;
        } else if 0xf0 <= b0 && b0 <= 0xf7 {
            // Four-byte scalar: at least 0x10000 and at most 0x10ffff.
            if n - i < 4 {
                proof {
                    assert(!valid_first_scalar(s));
                }
                return false;
            }
            let b1 = v[i + 1];
            let b2 = v[i + 2];
            let b3 = v[i + 3];
            proof {
                assert(s[1] == v@[i + 1]);
                assert(s[2] == v@[i + 2]);
                assert(s[3] == v@[i + 3]);
            }
            if !(0x80 <= b1 && b1 <= 0xbf) || !(0x80 <= b2 && b2 <= 0xbf) || !(0x80 <= b3 && b3
                <= 0xbf) {
                proof {
                    assert(!valid_first_scalar(s));
                }
                return false;
            }
            if b0 == 0xf0 && b1 < 0x90 {
                // Overlong: the value fits in three bytes.
                proof {
                    assert((((b0 & 0x07) as u32) << 18) | (((b1 & 0x3f) as u32) << 12) | (((b2
                        & 0x3f) as u32) << 6) | ((b3 & 0x3f) as u32) < 0x10000)
                        by (bit_vector)
                        requires
                            b0 == 0xf0 && 0x80 <= b1 < 0x90,
                    ;
                    assert(!valid_first_scalar(s));
                }
                return false;
            }
            if b0 > 0xf4 || (b0 == 0xf4 && b1 >= 0x90) {
                // Above the last Unicode scalar.
                proof {
                    assert((((b0 & 0x07) as u32) << 18) | (((b1 & 0x3f) as u32) << 12) | (((b2
                        & 0x3f) as u32) << 6) | ((b3 & 0x3f) as u32) > 0x10ffff)
                        by (bit_vector)
                        requires
                            0xf0 <= b0 <= 0xf7 && 0x80 <= b1 <= 0xbf && (b0 > 0xf4 || (b0 == 0xf4
                                && b1 >= 0x90)),
                    ;
                    assert(!valid_first_scalar(s));
                }
                return false;
            }
            proof {
                let c = (((b0 & 0x07) as u32) << 18) | (((b1 & 0x3f) as u32) << 12) | (((b2
                    & 0x3f) as u32) << 6) | ((b3 & 0x3f) as u32);
                assert(0x10000 <= c <= 0x10ffff) by (bit_vector)
                    requires
                        c == (((b0 & 0x07) as u32) << 18) | (((b1 & 0x3f) as u32) << 12) | (((b2
                            & 0x3f) as u32) << 6) | ((b3 & 0x3f) as u32),
                        0xf0 <= b0 <= 0xf4,
                        0x80 <= b1 <= 0xbf,
                        0x80 <= b2 <= 0xbf,
                        0x80 <= b3 <= 0xbf,
                        !(b0 == 0xf0 && b1 < 0x90),
                        !(b0 == 0xf4 && b1 >= 0x90),
                ;
                assert(valid_first_scalar(s));
                assert(pop_first_scalar(s) =~= v@.skip(i + 4));
            }
            i += 4;
        } else {
            // A stray continuation byte, or a byte no encoding uses.
            proof {
                assert(!valid_first_scalar(s));
            }
            return false;
        }
    }
    proof {
        assert(v@.skip(n as int) =~= Seq::<u8>::empty());
    }
    true
}

/// True when `pat` starts at position `i` of `s`.
fn matches_at(s: &Vec<u8>, i: usize, pat: &Vec<u8>) -> (r: bool)
    requires
        i + pat@.len() <= s@.len(),
    ensures
        r == (s@.subrange(i as int, i + pat@.len()) == pat@),
{
    let ghost sub = s@.subrange(i as int, i + pat@.len());
    let mut j: usize = 0;
    while j < pat.len()
        invariant
            i + pat@.len() <= s@.len(),
            0 <= j <= pat@.len(),
            sub == s@.subrange(i as int, i + pat@.len()),
            forall|k: int| 0 <= k < j ==> s@[i + k] == pat@[k],
        decreases pat@.len() - j,
    {
        proof {
            assert(s.len() == s@.len());
        }
        if s[i + j] != pat[j] {
            proof {
                assert(sub[j as int] == s@[i + j]);
            }
            return false;
        }
        j += 1;
    }
    proof {
        assert(sub =~= pat@);
    }
    true
}

/// Appends all bytes of `src` to `out`.
fn push_bytes(out: &mut Vec<u8>, src: &Vec<u8>)
    ensures
        final(out)@ == old(out)@ + src@,
{
    let mut j: usize = 0;
    while j < src.len()
        invariant
            0 <= j <= src@.len(),
            out@ == old(out)@ + src@.take(j as int),
        decreases src@.len() - j,
    {
        out.push(src[j]);
        proof {
            assert(old(out)@ + src@.take(j as int) + seq![src@[j as int]] =~= old(out)@
                + src@.take(j + 1));
        }
        j += 1;
    }
    proof {
        assert(src@.take(src@.len() as int) =~= src@);
    }
}

/// Replaces every occurrence of `pat` in `s` by `rep`.
pub fn replace_all(s: &Vec<u8>, pat: &Vec<u8>, rep: &Vec<u8>) -> (r: Vec<u8>)
    requires
        pat@.len() > 0,
    ensures
        r@ == replace_bytes(s@, pat@, rep@),
{
    let mut out: Vec<u8> = Vec::new();
    let mut i: usize = 0;
    proof {
        assert(s@.skip(0) =~= s@);
    }
    while i < s.len()
        invariant
            pat@.len() > 0,
            0 <= i <= s@.len(),
            replace_bytes(s@, pat@, rep@) == out@ + replace_bytes(s@.skip(i as int), pat@, rep@),
        decreases s@.len() - i,
    {
        let ghost rest = s@.skip(i as int);
        let ghost prev_out = out@;
        if pat.len() <= s.len() - i && matches_at(s, i, pat) {
            proof {
                assert(rest.take(pat@.len() as int) =~= s@.subrange(i as int, i + pat@.len()));
                assert(rest.skip(pat@.len() as int) =~= s@.skip(i + pat@.len()));
                assert(replace_bytes(rest, pat@, rep@) == rep@ + replace_bytes(
                    s@.skip(i + pat@.len()),
                    pat@,
                    rep@,
                ));
            }
            push_bytes(&mut out, rep);
            i = i + pat.len();
            proof {
                assert(prev_out + (rep@ + replace_bytes(s@.skip(i as int), pat@, rep@)) =~= (
                prev_out + rep@) + replace_bytes(s@.skip(i as int), pat@, rep@));
            }
        } else {
            proof {
                if pat@.len() <= rest.len() {
                    assert(rest.take(pat@.len() as int) =~= s@.subrange(i as int, i + pat@.len()));
                }
                assert(rest.skip(1) =~= s@.skip(i + 1));
                assert(rest.take(1) =~= seq![s@[i as int]]);
                assert(replace_bytes(rest, pat@, rep@) == seq![s@[i as int]] + replace_bytes(
                    s@.skip(i + 1),
                    pat@,
                    rep@,
                )) by {
                    if pat@.len() <= rest.len() {
                    } else {
                        assert(replace_bytes(rest, pat@, rep@) == rest);
                        assert(replace_bytes(s@.skip(i + 1), pat@, rep@) == s@.skip(i + 1));
                        assert(rest =~= seq![s@[i as int]] + s@.skip(i + 1));
                    }
                }
            }
            let b = s[i];
            out.push(b);
            i = i + 1;
            proof {
                assert(prev_out + (seq![b] + replace_bytes(s@.skip(i as int), pat@, rep@)) =~= (
                prev_out + seq![b]) + replace_bytes(s@.skip(i as int), pat@, rep@));
                assert(prev_out + seq![b] =~= prev_out.push(b));
            }
        }
    }
    proof {
        assert(s@.skip(s@.len() as int) =~= Seq::<u8>::empty());
        assert(replace_bytes(Seq::<u8>::empty(), pat@, rep@) == Seq::<u8>::empty());
        assert(out@ + Seq::<u8>::empty() =~= out@);
    }
    out
}

/// Applies placeholder substitution to one file's contents: a text file gets
/// every occurrence of the placeholder replaced by `project_name`, a binary
/// file comes back byte-for-byte unchanged.
pub fn substitute_file(contents: &Vec<u8>, project_name: &str) -> (r: Vec<u8>)
    ensures
        r@ == substituted(contents@, project_name.spec_bytes()),
{
    if utf8_valid(contents) {
        let token = placeholder_token();
        let pat = token.as_bytes_vec();
        let rep = project_name.as_bytes_vec();
        proof {
            lemma_placeholder_len();
        }
        replace_all(contents, &pat, &rep)
    } else {
        let mut r: Vec<u8> = Vec::new();
        push_bytes(&mut r, contents);
        proof {
            assert(Seq::<u8>::empty() + contents@ =~= contents@);
        }
        r
    }
}

/// A file whose bytes are not valid text is never rewritten: substitution
/// leaves it byte-for-byte identical, whatever byte patterns it holds.
pub proof fn lemma_binary_untouched(content: Seq<u8>, name_bytes: Seq<u8>)
    requires
        !valid_utf8(content),
    ensures
        substituted(content, name_bytes) == content,
{
}

} // verus!
