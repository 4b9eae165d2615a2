//! Directory names derived from titles.
use vstd::prelude::*;

verus! {

/// The whitespace that separates the words of a title: the characters of
/// Unicode's White_Space property.
pub open spec fn is_space(c: char) -> bool {
    ||| '\u{9}' <= c && c <= '\u{D}'
    ||| c == ' '
    ||| c == '\u{85}'
    ||| c == '\u{A0}'
    ||| c == '\u{1680}'
    ||| '\u{2000}' <= c && c <= '\u{200A}'
    ||| c == '\u{2028}'
    ||| c == '\u{2029}'
    ||| c == '\u{202F}'
    ||| c == '\u{205F}'
    ||| c == '\u{3000}'
}

/// Whether `c` is whitespace.
pub fn is_whitespace(c: char) -> (r: bool)
    ensures
        r == is_space(c),
{
    ('\u{9}' <= c && c <= '\u{D}') || c == ' ' || c == '\u{85}' || c == '\u{A0}' || c == '\u{1680}'
        || ('\u{2000}' <= c && c <= '\u{200A}') || c == '\u{2028}' || c == '\u{2029}'
        || c == '\u{202F}' || c == '\u{205F}' || c == '\u{3000}'
}

/// ASCII lower case of one character; every other character is kept.
pub open spec fn lower(c: char) -> char {
    if 'A' <= c && c <= 'Z' {
        ((c as u32) + 32) as char
    } else {
        c
    }
}

pub open spec fn lower_all(s: Seq<char>) -> Seq<char> {
    s.map_values(|c: char| lower(c))
}

/// The maximal runs of non-space characters of `s`, left to right.
pub open spec fn words(s: Seq<char>) -> Seq<Seq<char>>
    decreases s.len(),
{
    if s.len() == 0 {
        Seq::empty()
    } else {
        let init = words(s.drop_last());
        let c = s.last();
        if is_space(c) {
            init
        } else if s.len() >= 2 && !is_space(s[s.len() - 2]) {
            init.drop_last().push(init.last().push(c))
        } else {
            init.push(seq![c])
        }
    }
}

/// The words laid end to end with one `sep` between neighbours.
pub open spec fn join(ws: Seq<Seq<char>>, sep: char) -> Seq<char>
    decreases ws.len(),
{
    if ws.len() == 0 {
        Seq::empty()
    } else if ws.len() == 1 {
        ws[0]
    } else {
        join(ws.drop_last(), sep) + seq![sep] + ws.last()
    }
}

/// A title in lower case, each run of whitespace made one `sep`, and
/// whitespace at either end dropped.
pub open spec fn slug_with(title: Seq<char>, sep: char) -> Seq<char> {
    join(words(lower_all(title)), sep)
}

/// `s` with each ' ' made '_'.
pub open spec fn underscored(s: Seq<char>) -> Seq<char> {
    s.map_values(|c: char| if c == ' ' { '_' } else { c })
}

/// The directory name of a node: words of the title joined by '-'.
pub open spec fn slug_of(title: Seq<char>) -> Seq<char> {
    slug_with(title, '-')
}

/// Relies on str::to_ascii_lowercase: 'A'..='Z' become 'a'..='z', every other
/// character is kept.
#[verifier::external_body]
fn ascii_lowercase(s: &str) -> (r: String)
    ensures
        r@ == lower_all(s@),
{
    s.to_ascii_lowercase()
}

proof fn lemma_join_extend(ws: Seq<Seq<char>>, sep: char, c: char)
    requires
        ws.len() > 0,
    ensures
        join(ws.drop_last().push(ws.last().push(c)), sep) == join(ws, sep) + seq![c],
{
    let ws2 = ws.drop_last().push(ws.last().push(c));
    assert(ws2.drop_last() =~= ws.drop_last());
    if ws.len() == 1 {
        assert(join(ws2, sep) == ws2[0]);
    } else {
        assert(ws2.last() == ws.last().push(c));
        assert(join(ws2, sep) == join(ws.drop_last(), sep) + seq![sep] + ws.last().push(c));
        assert(join(ws2, sep) =~= join(ws, sep) + seq![c]);
    }
}

proof fn lemma_join_push(ws: Seq<Seq<char>>, sep: char, c: char)
    ensures
        join(ws.push(seq![c]), sep) == if ws.len() == 0 {
            seq![c]
        } else {
            join(ws, sep) + seq![sep] + seq![c]
        },
{
    let ws2 = ws.push(seq![c]);
    assert(ws2.drop_last() =~= ws);
}

proof fn lemma_words_nonempty(s: Seq<char>)
    requires
        s.len() > 0,
        !is_space(s.last()),
    ensures
        words(s).len() > 0,
    decreases s.len(),
{
    if s.len() >= 2 && !is_space(s[s.len() - 2]) {
        assert(s.drop_last().last() == s[s.len() - 2]);
        lemma_words_nonempty(s.drop_last());
    }
}

/// Joins the words of `s` with the single character of `sep`.
fn join_words(s: &str, sep: &str) -> (r: String)
    requires
        sep@.len() == 1,
    ensures
        r@ == join(words(s@), sep@[0]),
{
    let n = s.unicode_len();
    let mut out = String::new();
    let mut prev_space = true;
    let mut any_word = false;
    let mut i: usize = 0;
    while i < n
        invariant
            n == s@.len(),
            sep@.len() == 1,
            i <= n,
            out@ == join(words(s@.take(i as int)), sep@[0]),
            prev_space == (i == 0 || is_space(s@[i - 1])),
            any_word == (words(s@.take(i as int)).len() > 0),
        decreases n - i,
    {
        let c = s.get_char(i);
        let ghost t = s@.take(i as int);
        let ghost t1 = s@.take(i as int + 1);
        assert(t1.drop_last() =~= t);
        assert(t1.last() == c);
        let space = is_whitespace(c);
        if !space {
            let piece = s.substring_char(i, i + 1);
            assert(piece@ =~= seq![c]);
            if prev_space {
                proof {
                    if i >= 1 {
                        assert(t1[t1.len() - 2] == s@[i - 1]);
                    }
                    lemma_join_push(words(t), sep@[0], c);
                }
                if any_word {
                    out.append(sep);
                }
                out.append(piece);
                assert(out@ =~= join(words(t1), sep@[0]));
                any_word = true;
            } else {
                proof {
                    assert(t1[t1.len() - 2] == s@[i - 1]);
                    lemma_words_nonempty(t);
                    lemma_words_nonempty(t1);
                    lemma_join_extend(words(t), sep@[0], c);
                }
                out.append(piece);
            }
        }
        proof {
            if !space {
                lemma_words_nonempty(t1);
            }
        }
        prev_space = space;
        i = i + 1;
    }
    assert(s@.take(n as int) =~= s@);
    out
}

/// The directory name for a title: its words in ASCII lower case, joined by
/// '-'. Titles that differ only in case or spacing share a name.
pub fn slug(title: &str) -> (r: String)
    ensures
        r@ == slug_of(title@),
{
    let low = ascii_lowercase(title);
    proof {
        reveal_strlit("-");
    }
    join_words(low.as_str(), "-")
}

/// Case conversions of a title.
pub trait CaseExt: View<V = Seq<char>> {
    /// Words in lower case joined by '-'.
    fn to_kebab_case(&self) -> (r: String)
        ensures
            r@ == slug_with(self@, '-'),
    ;

    /// ASCII lower case, with each ' ' made '_'.
    fn to_snake_case(&self) -> (r: String)
        ensures
            r@ == underscored(lower_all(self@)),
    ;
}

impl CaseExt for String {
    fn to_kebab_case(&self) -> (r: String) {
        slug(self.as_str())
    }

    fn to_snake_case(&self) -> (r: String) {
        let low = ascii_lowercase(self.as_str());
        let s = low.as_str();
        let n = s.unicode_len();
        let mut out = String::new();
        proof {
            reveal_strlit("_");
        }
        let mut i: usize = 0;
        while i < n
            invariant
                n == s@.len(),
                i <= n,
                "_"@ == seq!['_'],
                out@ =~= underscored(s@.take(i as int)),
            decreases n - i,
        {
            let c = s.get_char(i);
            if c == ' ' {
                out.append("_");
            } else {
                out.append(s.substring_char(i, i + 1));
            }
            i = i + 1;
            assert(out@ =~= underscored(s@.take(i as int)));
        }
        assert(s@.take(n as int) =~= s@);
        out
    }
}

} // verus!
