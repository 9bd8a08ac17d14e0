use vstd::prelude::*;

verus! {

/// Every accepted word, and the secret itself, has exactly this many letters.
pub const WORD_LENGTH: usize = 5;

/// An uppercase ASCII letter.
pub open spec fn is_upper(c: char) -> bool {
    'A' <= c && c <= 'Z'
}

/// The uppercase form of a lowercase ASCII letter; other characters are
/// unchanged.
pub open spec fn upper_of(c: char) -> char {
    if 'a' <= c && c <= 'z' {
        ((c as u8) - 0x20) as char
    } else {
        c
    }
}

/// The ASCII letters of a character's Unicode uppercase mapping, in order.
/// ASCII letters map to their uppercase form. Beyond ASCII, the characters
/// whose full uppercase mapping holds any ASCII letter are: dotless i and
/// long s (to I and S); sharp s (to SS) and the Latin ligatures ff fi fl
/// ffi ffl st (spelled out); and the handful whose mapping pairs an ASCII
/// letter with a modifier or combining mark (apostrophe-n, j-caron, and
/// h t w y a with attached marks), which keep only the letter. Every other
/// character uppercases to no ASCII letter and contributes nothing.
pub open spec fn upper_ascii_of(c: char) -> Seq<char> {
    if 'A' <= c && c <= 'Z' {
        seq![c]
    } else if 'a' <= c && c <= 'z' {
        seq![upper_of(c)]
    } else if c == '\u{00df}' {
        seq!['S', 'S']
    } else if c == '\u{0131}' {
        seq!['I']
    } else if c == '\u{017f}' {
        seq!['S']
    } else if c == '\u{0149}' {
        seq!['N']
    } else if c == '\u{01f0}' {
        seq!['J']
    } else if c == '\u{1e96}' {
        seq!['H']
    } else if c == '\u{1e97}' {
        seq!['T']
    } else if c == '\u{1e98}' {
        seq!['W']
    } else if c == '\u{1e99}' {
        seq!['Y']
    } else if c == '\u{1e9a}' {
        seq!['A']
    } else if c == '\u{fb00}' {
        seq!['F', 'F']
    } else if c == '\u{fb01}' {
        seq!['F', 'I']
    } else if c == '\u{fb02}' {
        seq!['F', 'L']
    } else if c == '\u{fb03}' {
        seq!['F', 'F', 'I']
    } else if c == '\u{fb04}' {
        seq!['F', 'F', 'L']
    } else if c == '\u{fb05}' {
        seq!['S', 'T']
    } else if c == '\u{fb06}' {
        seq!['S', 'T']
    } else {
        Seq::empty()
    }
}

/// Normalized form of a raw line: the line uppercased by the Unicode
/// mapping, with every character that is not an ASCII letter then removed
/// individually.
pub open spec fn normalize(s: Seq<char>) -> Seq<char>
    decreases s.len(),
{
    if s.len() == 0 {
        Seq::empty()
    } else {
        normalize(s.drop_last()) + upper_ascii_of(s.last())
    }
}

/// Relies on String::push: appends the given character to the end.
#[verifier::external_body]
pub(crate) fn push_char(s: &mut String, c: char)
    ensures
        final(s)@ == old(s)@.push(c),
{
    s.push(c)
}

/// Appends the ASCII letters of one character's uppercase mapping.
fn push_upper_ascii(out: &mut String, c: char)
    ensures
        final(out)@ == old(out)@ + upper_ascii_of(c),
{
    let ghost before = old(out)@;
    if 'A' <= c && c <= 'Z' {
        push_char(out, c);
        proof {
            assert(out@ =~= before + seq![c]);
        }
    } else if 'a' <= c && c <= 'z' {
        let u = ((c as u8) - 0x20) as char;
        push_char(out, u);
        proof {
            assert(out@ =~= before + seq![upper_of(c)]);
        }
    } else if c == '\u{00df}' || c == '\u{fb05}' || c == '\u{fb06}' {
        push_char(out, 'S');
        push_char(out, if c == '\u{00df}' {
            'S'
        } else {
            'T'
        });
        proof {
            assert(out@ =~= before + upper_ascii_of(c));
        }
    } else if c == '\u{0131}' || c == '\u{017f}' || c == '\u{0149}' || c == '\u{01f0}' || c
        == '\u{1e96}' || c == '\u{1e97}' || c == '\u{1e98}' || c == '\u{1e99}' || c == '\u{1e9a}' {
        let u = if c == '\u{0131}' {
            'I'
        } else if c == '\u{017f}' {
            'S'
        } else if c == '\u{0149}' {
            'N'
        } else if c == '\u{01f0}' {
            'J'
        } else if c == '\u{1e96}' {
            'H'
        } else if c == '\u{1e97}' {
            'T'
        } else if c == '\u{1e98}' {
            'W'
        } else if c == '\u{1e99}' {
            'Y'
        } else {
            'A'
        };
        push_char(out, u);
        proof {
            assert(out@ =~= before + upper_ascii_of(c));
        }
    } else if c == '\u{fb00}' || c == '\u{fb01}' || c == '\u{fb02}' {
        push_char(out, 'F');
        push_char(out, if c == '\u{fb00}' {
            'F'
        } else if c == '\u{fb01}' {
            'I'
        } else {
            'L'
        });
        proof {
            assert(out@ =~= before + upper_ascii_of(c));
        }
    } else if c == '\u{fb03}' || c == '\u{fb04}' {
        push_char(out, 'F');
        push_char(out, 'F');
        push_char(out, if c == '\u{fb03}' {
            'I'
        } else {
            'L'
        });
        proof {
            assert(out@ =~= before + upper_ascii_of(c));
        }
    } else {
        proof {
            assert(out@ =~= before + upper_ascii_of(c));
        }
    }
}

/// Uppercases the input by the Unicode mapping and keeps only the ASCII
/// letters of the result. Whitespace, digits and punctuation are dropped
/// wherever they stand, edges and interior alike.
pub fn sanitize_word(word: &str) -> (r: String)
    ensures
        r@ == normalize(word@),
{
    let n = word.unicode_len();
    let mut out = String::new();
    let mut i: usize = 0;
    while i < n
        invariant
            n == word@.len(),
            i <= n,
            out@ == normalize(word@.subrange(0, i as int)),
        decreases n - i,
    {
        let c = word.get_char(i);
        push_upper_ascii(&mut out, c);
        proof {
            assert(word@.subrange(0, i + 1).drop_last() =~= word@.subrange(0, i as int));
        }
        i = i + 1;
    }
    proof {
        assert(word@.subrange(0, n as int) =~= word@);
    }
    out
}

/// Every letter a character contributes is an uppercase ASCII letter.
pub proof fn lemma_upper_ascii_upper(c: char)
    ensures
        forall|k: int|
            0 <= k < upper_ascii_of(c).len() ==> is_upper(#[trigger] upper_ascii_of(c)[k]),
{
}

/// Every character of a normalized word is an uppercase ASCII letter.
pub proof fn lemma_normalize_uppercase(raw: Seq<char>)
    ensures
        forall|i: int| 0 <= i < normalize(raw).len() ==> is_upper(#[trigger] normalize(raw)[i]),
    decreases raw.len(),
{
    if raw.len() > 0 {
        lemma_normalize_uppercase(raw.drop_last());
        lemma_upper_ascii_upper(raw.last());
        let rest = normalize(raw.drop_last());
        let tail = upper_ascii_of(raw.last());
        assert forall|i: int| 0 <= i < normalize(raw).len() implies is_upper(
            #[trigger] normalize(raw)[i],
        ) by {
            if i < rest.len() {
                assert(normalize(raw)[i] == rest[i]);
            } else {
                assert(normalize(raw)[i] == tail[i - rest.len()]);
            }
        }
    }
}

/// A word made of uppercase ASCII letters is already normalized.
pub proof fn lemma_normalize_of_normalized(w: Seq<char>)
    requires
        forall|i: int| 0 <= i < w.len() ==> is_upper(#[trigger] w[i]),
    ensures
        normalize(w) == w,
    decreases w.len(),
{
    if w.len() == 0 {
        assert(normalize(w) =~= w);
    } else {
        lemma_normalize_of_normalized(w.drop_last());
        assert(upper_ascii_of(w.last()) == seq![w.last()]);
        assert(normalize(w) =~= w);
    }
}

/// Normalization is idempotent: normalizing a second time changes nothing.
pub proof fn lemma_normalize_idempotent(raw: Seq<char>)
    ensures
        normalize(normalize(raw)) == normalize(raw),
{
    lemma_normalize_uppercase(raw);
    lemma_normalize_of_normalized(normalize(raw));
}

/// A word is valid exactly when it has `WORD_LENGTH` characters.
pub fn is_valid_word(word: &str) -> (r: bool)
    ensures
        r == (word@.len() == WORD_LENGTH),
{
    word.unicode_len() == WORD_LENGTH
}

/// The lines of a text: the runs of characters between '\n' separators,
/// as `str::split` yields them (an empty text has one empty line).
pub open spec fn split_lines(s: Seq<char>) -> Seq<Seq<char>>
    decreases s.len(),
{
    if s.len() == 0 {
        seq![Seq::empty()]
    } else if s.last() == '\n' {
        split_lines(s.drop_last()).push(Seq::empty())
    } else {
        let r = split_lines(s.drop_last());
        r.update(r.len() - 1, r.last().push(s.last()))
    }
}

/// A text always has at least one line.
pub proof fn lemma_split_lines_nonempty(s: Seq<char>)
    ensures
        split_lines(s).len() >= 1,
    decreases s.len(),
{
    if s.len() > 0 {
        lemma_split_lines_nonempty(s.drop_last());
    }
}

/// The words accepted from a sequence of raw lines: each line normalized,
/// kept in encounter order when the normalized form has `WORD_LENGTH` letters.
pub open spec fn accepted_words(lines: Seq<Seq<char>>) -> Seq<Seq<char>>
    decreases lines.len(),
{
    if lines.len() == 0 {
        Seq::empty()
    } else {
        let rest = accepted_words(lines.drop_last());
        let w = normalize(lines.last());
        if w.len() == WORD_LENGTH {
            rest.push(w)
        } else {
            rest
        }
    }
}

/// Every accepted word has `WORD_LENGTH` characters, all uppercase ASCII.
pub proof fn lemma_accepted_words_valid(lines: Seq<Seq<char>>)
    ensures
        forall|j: int|
            0 <= j < accepted_words(lines).len() ==> {
                let w = #[trigger] accepted_words(lines)[j];
                w.len() == WORD_LENGTH && (forall|i: int| 0 <= i < w.len() ==> is_upper(#[trigger] w[i]))
            },
    decreases lines.len(),
{
    if lines.len() > 0 {
        lemma_accepted_words_valid(lines.drop_last());
        lemma_normalize_uppercase(lines.last());
        let rest = accepted_words(lines.drop_last());
        let w = normalize(lines.last());
        if w.len() == WORD_LENGTH {
            assert forall|j: int| 0 <= j < accepted_words(lines).len() implies {
                let v = #[trigger] accepted_words(lines)[j];
                v.len() == WORD_LENGTH && (forall|i: int| 0 <= i < v.len() ==> is_upper(#[trigger] v[i]))
            } by {
                if j < rest.len() {
                    assert(accepted_words(lines)[j] == rest[j]);
                } else {
                    assert(accepted_words(lines)[j] == w);
                }
            }
        }
    }
}

/// The words a raw text yields: its lines, normalized and filtered to the
/// valid length, in encounter order.
pub open spec fn words_of(s: Seq<char>) -> Seq<Seq<char>> {
    accepted_words(split_lines(s))
}

/// Splits the text on newlines, normalizes each line, and returns the
/// lines whose normalized form is a valid word, in encounter order.
pub fn get_words(words: &str) -> (r: Vec<String>)
    ensures
        r.deep_view() == words_of(words@),
{
    let n = words.unicode_len();
    let mut out: Vec<String> = Vec::new();
    let mut cur = String::new();
    let mut i: usize = 0;
    proof {
        assert(words@.subrange(0, 0) =~= Seq::<char>::empty());
    }
    while i < n
        invariant
            n == words@.len(),
            i <= n,
            split_lines(words@.subrange(0, i as int)).len() >= 1,
            cur@ == split_lines(words@.subrange(0, i as int)).last(),
            out.deep_view() == accepted_words(
                split_lines(words@.subrange(0, i as int)).drop_last(),
            ),
        decreases n - i,
    {
        let ghost pre = words@.subrange(0, i as int);
        let ghost post = words@.subrange(0, i + 1);
        proof {
            assert(post.drop_last() =~= pre);
            lemma_split_lines_nonempty(pre);
        }
        let c = words.get_char(i);
        if c == '\n' {
            let w = sanitize_word(cur.as_str());
            let ghost old_out = out.deep_view();
            if is_valid_word(w.as_str()) {
                out.push(w);
            }
            cur = String::new();
            proof {
                let sl = split_lines(pre);
                let sl2 = split_lines(post);
                assert(sl2 == sl.push(Seq::<char>::empty()));
                assert(sl2.drop_last() =~= sl);
                assert(sl.drop_last().push(sl.last()) =~= sl);
                assert(accepted_words(sl) == if normalize(sl.last()).len() == WORD_LENGTH {
                    accepted_words(sl.drop_last()).push(normalize(sl.last()))
                } else {
                    accepted_words(sl.drop_last())
                });
                if normalize(sl.last()).len() == WORD_LENGTH {
                    assert(out.deep_view() =~= old_out.push(normalize(sl.last())));
                }
            }
        } else {
            push_char(&mut cur, c);
            proof {
                let sl = split_lines(pre);
                let sl2 = split_lines(post);
                assert(post.last() == c);
                assert(sl2 == sl.update(sl.len() - 1, sl.last().push(c)));
                assert(sl2.drop_last() =~= sl.drop_last());
                assert(sl2.last() == sl.last().push(c));
            }
        }
        i = i + 1;
    }
    proof {
        assert(words@.subrange(0, n as int) =~= words@);
        lemma_split_lines_nonempty(words@);
    }
    let w = sanitize_word(cur.as_str());
    let ghost old_out = out.deep_view();
    if is_valid_word(w.as_str()) {
        out.push(w);
    }
    proof {
        let sl = split_lines(words@);
        assert(sl.drop_last().push(sl.last()) =~= sl);
        assert(accepted_words(sl) == if normalize(sl.last()).len() == WORD_LENGTH {
            accepted_words(sl.drop_last()).push(normalize(sl.last()))
        } else {
            accepted_words(sl.drop_last())
        });
        if normalize(sl.last()).len() == WORD_LENGTH {
            assert(out.deep_view() =~= old_out.push(normalize(sl.last())));
        }
    }
    out
}

} // verus!
