use vstd::prelude::*;

verus! {

/// A carriage return or a newline.
pub open spec fn is_break(c: char) -> bool {
    c == '\r' || c == '\n'
}

/// A space or a line break.
pub open spec fn is_blank(c: char) -> bool {
    c == ' ' || is_break(c)
}

/// Every carriage return and newline replaced by a space.
pub open spec fn blank_breaks(s: Seq<char>) -> Seq<char> {
    s.map_values(|c: char| if is_break(c) { ' ' } else { c })
}

/// One left-to-right pass that turns each non-overlapping pair of spaces into one space.
pub open spec fn collapse_once(s: Seq<char>) -> Seq<char>
    decreases s.len(),
{
    if s.len() < 2 {
        s
    } else if s[0] == ' ' && s[1] == ' ' {
        seq![' '] + collapse_once(s.skip(2))
    } else {
        seq![s[0]] + collapse_once(s.skip(1))
    }
}

/// What `char::to_uppercase` yields for a character.
pub uninterp spec fn upper_of_char(c: char) -> Seq<char>;

pub open spec fn is_ascii_char(c: char) -> bool {
    (c as u32) < 128
}

pub open spec fn ascii_upper(c: char) -> char {
    if 'a' <= c && c <= 'z' {
        ((c as u32 - 32) as u8) as char
    } else {
        c
    }
}

/// The upper-case form of one character: ASCII letters are mapped directly,
/// other characters by their Unicode upper-case mapping.
pub open spec fn upper_char(c: char) -> Seq<char> {
    if is_ascii_char(c) {
        seq![ascii_upper(c)]
    } else {
        upper_of_char(c)
    }
}

/// The upper-case form of a string, character by character.
pub open spec fn upper_all(s: Seq<char>) -> Seq<char>
    decreases s.len(),
{
    if s.len() == 0 {
        Seq::empty()
    } else {
        upper_all(s.drop_last()) + upper_char(s.last())
    }
}

/// The canonical form in which texts are compared.
pub open spec fn normalized(s: Seq<char>) -> Seq<char> {
    upper_all(collapse_once(blank_breaks(s)))
}

pub open spec fn all_ascii(s: Seq<char>) -> bool {
    forall|i: int| 0 <= i < s.len() ==> is_ascii_char(#[trigger] s[i])
}

pub open spec fn no_breaks(s: Seq<char>) -> bool {
    forall|i: int| 0 <= i < s.len() ==> !is_break(#[trigger] s[i])
}

/// No two neighbouring spaces.
pub open spec fn no_double_space(s: Seq<char>) -> bool {
    forall|i: int| 0 <= i && i + 1 < s.len() ==> !(#[trigger] s[i] == ' ' && s[i + 1] == ' ')
}

/// No three neighbouring characters that are all spaces or line breaks.
pub open spec fn no_blank_triple(s: Seq<char>) -> bool {
    forall|i: int|
        0 <= i && i + 2 < s.len() ==> !(is_blank(#[trigger] s[i]) && is_blank(s[i + 1]) && is_blank(
            s[i + 2],
        ))
}

proof fn lemma_upper_ascii(s: Seq<char>)
    requires
        all_ascii(s),
    ensures
        upper_all(s) =~= s.map_values(|c: char| ascii_upper(c)),
    decreases s.len(),
{
    if s.len() > 0 {
        lemma_upper_ascii(s.drop_last());
    }
}

proof fn lemma_collapse_first(s: Seq<char>)
    requires
        s.len() > 0,
    ensures
        collapse_once(s).len() > 0,
        collapse_once(s)[0] == s[0],
{
}

proof fn lemma_collapse_keeps(s: Seq<char>)
    requires
        all_ascii(s),
        no_breaks(s),
    ensures
        all_ascii(collapse_once(s)),
        no_breaks(collapse_once(s)),
    decreases s.len(),
{
    if s.len() >= 2 {
        if s[0] == ' ' && s[1] == ' ' {
            lemma_collapse_keeps(s.skip(2));
        } else {
            lemma_collapse_keeps(s.skip(1));
        }
    }
}

proof fn lemma_collapse_no_double(s: Seq<char>)
    requires
        forall|i: int| 0 <= i && i + 2 < s.len() ==> !(#[trigger] s[i] == ' ' && s[i + 1] == ' ' && s[i + 2] == ' '),
    ensures
        no_double_space(collapse_once(s)),
    decreases s.len(),
{
    if s.len() >= 2 {
        if s[0] == ' ' && s[1] == ' ' {
            let t = s.skip(2);
            assert forall|i: int| 0 <= i && i + 2 < t.len() implies !(#[trigger] t[i] == ' ' && t[i + 1] == ' ' && t[i + 2] == ' ') by {
                assert(t[i] == s[i + 2]);
            }
            lemma_collapse_no_double(t);
            if t.len() > 0 {
                lemma_collapse_first(t);
                assert(s[2] != ' ');
            }
            let r = collapse_once(s);
            assert(r == seq![' '] + collapse_once(t));
            assert forall|i: int| 0 <= i && i + 1 < r.len() implies !(#[trigger] r[i] == ' ' && r[i + 1] == ' ') by {
                if i > 0 {
                    assert(r[i] == collapse_once(t)[i - 1]);
                    assert(r[i + 1] == collapse_once(t)[i]);
                }
            }
        } else {
            let t = s.skip(1);
            assert forall|i: int| 0 <= i && i + 2 < t.len() implies !(#[trigger] t[i] == ' ' && t[i + 1] == ' ' && t[i + 2] == ' ') by {
                assert(t[i] == s[i + 1]);
            }
            lemma_collapse_no_double(t);
            lemma_collapse_first(t);
            let r = collapse_once(s);
            assert(r == seq![s[0]] + collapse_once(t));
            assert forall|i: int| 0 <= i && i + 1 < r.len() implies !(#[trigger] r[i] == ' ' && r[i + 1] == ' ') by {
                if i > 0 {
                    assert(r[i] == collapse_once(t)[i - 1]);
                    assert(r[i + 1] == collapse_once(t)[i]);
                }
            }
        }
    }
}

proof fn lemma_collapse_identity(s: Seq<char>)
    requires
        no_double_space(s),
    ensures
        collapse_once(s) == s,
    decreases s.len(),
{
    if s.len() >= 2 {
        let t = s.skip(1);
        assert(no_double_space(t)) by {
            assert forall|i: int| 0 <= i && i + 1 < t.len() implies !(#[trigger] t[i] == ' ' && t[i + 1] == ' ') by {
                assert(t[i] == s[i + 1]);
            }
        }
        assert(!(s[0] == ' ' && s[1] == ' '));
        lemma_collapse_identity(t);
        assert(seq![s[0]] + t =~= s);
    }
}

/// Normalizing twice gives what normalizing once gives, for ASCII text in
/// which no three neighbouring characters are all spaces or line breaks.
/// (A run of three or more such characters is only shortened by one pass.)
pub proof fn lemma_normalize_idempotent(s: Seq<char>)
    requires
        all_ascii(s),
        no_blank_triple(s),
    ensures
        normalized(normalized(s)) == normalized(s),
{
    let t = blank_breaks(s);
    assert forall|i: int| 0 <= i && i + 2 < t.len() implies !(#[trigger] t[i] == ' ' && t[i + 1] == ' ' && t[i + 2] == ' ') by {
        assert(is_blank(s[i]) && is_blank(s[i + 1]) && is_blank(s[i + 2]) ==> false);
    }
    assert(all_ascii(t));
    assert(no_breaks(t));
    lemma_collapse_no_double(t);
    lemma_collapse_keeps(t);
    let c = collapse_once(t);
    lemma_upper_ascii(c);
    let u = c.map_values(|c: char| ascii_upper(c));
    assert(normalized(s) == u);
    assert(all_ascii(u));
    assert(no_breaks(u));
    assert(no_double_space(u)) by {
        assert forall|i: int| 0 <= i && i + 1 < u.len() implies !(#[trigger] u[i] == ' ' && u[i + 1] == ' ') by {
            assert(u[i] == ascii_upper(c[i]));
            assert(u[i + 1] == ascii_upper(c[i + 1]));
        }
    }
    assert(blank_breaks(u) =~= u);
    lemma_collapse_identity(u);
    lemma_upper_ascii(u);
    assert(u.map_values(|c: char| ascii_upper(c)) =~= u);
}

/// Relies on `str::chars`: the characters of the string, in order.
#[verifier::external_body]
pub(crate) fn chars_of(s: &str) -> (r: Vec<char>)
    ensures
        r@ == s@,
{
    s.chars().collect()
}

/// Relies on `String`'s `FromIterator<&char>`: the string of exactly these characters.
#[verifier::external_body]
pub(crate) fn string_of(v: &Vec<char>) -> (r: String)
    ensures
        r@ == v@,
{
    v.iter().collect()
}

/// Relies on `char::to_uppercase`, collected into a vector.
#[verifier::external_body]
fn upper_of(c: char) -> (r: Vec<char>)
    ensures
        r@ == upper_of_char(c),
{
    c.to_uppercase().collect()
}

fn blank_breaks_exec(s: &Vec<char>) -> (r: Vec<char>)
    ensures
        r@ == blank_breaks(s@),
{
    let mut r: Vec<char> = Vec::new();
    let mut i: usize = 0;
    while i < s.len()
        invariant
            i <= s.len(),
            r@ == blank_breaks(s@.subrange(0, i as int)),
        decreases s.len() - i,
    {
        let c = s[i];
        if c == '\r' || c == '\n' {
            r.push(' ');
        } else {
            r.push(c);
        }
        i += 1;
        assert(r@ =~= blank_breaks(s@.subrange(0, i as int)));
    }
    assert(s@.subrange(0, s.len() as int) =~= s@);
    r
}

proof fn lemma_collapse_step(s: Seq<char>, i: int)
    requires
        0 <= i < s.len(),
    ensures
        i + 1 < s.len() && s[i] == ' ' && s[i + 1] == ' ' ==> collapse_once(s.subrange(i, s.len() as int))
            == seq![' '] + collapse_once(s.subrange(i + 2, s.len() as int)),
        !(i + 1 < s.len() && s[i] == ' ' && s[i + 1] == ' ') ==> collapse_once(s.subrange(i, s.len() as int))
            == seq![s[i]] + collapse_once(s.subrange(i + 1, s.len() as int)),
{
    let t = s.subrange(i, s.len() as int);
    if i + 2 <= s.len() {
        assert(t.skip(2) =~= s.subrange(i + 2, s.len() as int));
    }
    assert(t.skip(1) =~= s.subrange(i + 1, s.len() as int));
    if t.len() < 2 {
        assert(s.subrange(i + 1, s.len() as int) =~= Seq::<char>::empty());
        assert(t =~= seq![s[i]]);
    }
}

fn collapse_exec(s: &Vec<char>) -> (r: Vec<char>)
    ensures
        r@ == collapse_once(s@),
{
    let mut r: Vec<char> = Vec::new();
    let mut i: usize = 0;
    let n = s.len();
    assert(s@.subrange(0, n as int) =~= s@);
    assert(r@ + s@ =~= s@);
    while i < n
        invariant
            n == s.len(),
            i <= n,
            collapse_once(s@) == r@ + collapse_once(s@.subrange(i as int, n as int)),
        decreases n - i,
    {
        proof {
            lemma_collapse_step(s@, i as int);
        }
        if i + 1 < n && s[i] == ' ' && s[i + 1] == ' ' {
            r.push(' ');
            i += 2;
        } else {
            r.push(s[i]);
            i += 1;
        }
        assert(collapse_once(s@) =~= r@ + collapse_once(s@.subrange(i as int, n as int)));
    }
    assert(s@.subrange(0, n as int) =~= s@);
    assert(s@.subrange(n as int, n as int) =~= Seq::<char>::empty());
    assert(r@ + Seq::<char>::empty() =~= r@);
    r
}

fn upper_exec(s: &Vec<char>) -> (r: Vec<char>)
    ensures
        r@ == upper_all(s@),
{
    let mut r: Vec<char> = Vec::new();
    let mut i: usize = 0;
    while i < s.len()
        invariant
            i <= s.len(),
            r@ == upper_all(s@.subrange(0, i as int)),
        decreases s.len() - i,
    {
        let c = s[i];
        let ghost before = r@;
        if (c as u32) < 128 {
            if 'a' <= c && c <= 'z' {
                let b: u8 = (c as u32 - 32) as u8;
                r.push(b as char);
            } else {
                r.push(c);
            }
        } else {
            let mut u = upper_of(c);
            r.append(&mut u);
        }
        i += 1;
        assert(s@.subrange(0, i as int).drop_last() =~= s@.subrange(0, i - 1));
        assert(r@ =~= before + upper_char(c));
    }
    assert(s@.subrange(0, s.len() as int) =~= s@);
    r
}

/// The upper-case form of a string, as characters.
pub(crate) fn upper_chars(s: &str) -> (r: Vec<char>)
    ensures
        r@ == upper_all(s@),
{
    let chars = chars_of(s);
    upper_exec(&chars)
}

/// Whether two character sequences are the same.
pub(crate) fn same_chars(a: &Vec<char>, b: &Vec<char>) -> (r: bool)
    ensures
        r == (a@ == b@),
{
    if a.len() != b.len() {
        return false;
    }
    let mut i: usize = 0;
    while i < a.len()
        invariant
            a@.len() == b@.len(),
            i <= a@.len(),
            forall|j: int| 0 <= j < i ==> a@[j] == b@[j],
        decreases a@.len() - i,
    {
        if a[i] != b[i] {
            return false;
        }
        i += 1;
    }
    assert(a@ =~= b@);
    true
}

/// Whether two strings hold the same characters.
pub(crate) fn same_text(a: &str, b: &str) -> (r: bool)
    ensures
        r == (a@ == b@),
{
    same_chars(&chars_of(a), &chars_of(b))
}

/// The text cut at every newline: each piece but the last was ended by one.
pub open spec fn pieces(s: Seq<char>) -> Seq<Seq<char>>
    decreases s.len(),
{
    if s.len() == 0 {
        seq![Seq::empty()]
    } else {
        let p = pieces(s.drop_last());
        if s.last() == '\n' {
            p.push(Seq::empty())
        } else {
            p.update(p.len() - 1, p.last().push(s.last()))
        }
    }
}

/// A line without the carriage return that ended it, if any.
pub open spec fn strip_cr(l: Seq<char>) -> Seq<char> {
    if l.len() > 0 && l.last() == '\r' {
        l.drop_last()
    } else {
        l
    }
}

/// The lines of a text, as `str::lines` yields them: split at `\n` or
/// `\r\n`, with no empty line after a final line ending.
pub open spec fn text_lines(s: Seq<char>) -> Seq<Seq<char>> {
    let p = pieces(s);
    let ended = p.drop_last().map_values(|l: Seq<char>| strip_cr(l));
    if p.last().len() == 0 {
        ended
    } else {
        ended.push(p.last())
    }
}

pub open spec fn indent(l: Seq<char>) -> Seq<char> {
    "    "@ + l
}

/// The lines of a text, each indented by four spaces.
pub open spec fn indented(s: Seq<char>) -> Seq<Seq<char>> {
    text_lines(s).map_values(|l: Seq<char>| indent(l))
}

pub open spec fn strings_view(v: Seq<String>) -> Seq<Seq<char>> {
    v.map_values(|s: String| s@)
}

proof fn lemma_pieces_len(s: Seq<char>)
    ensures
        pieces(s).len() >= 1,
    decreases s.len(),
{
    if s.len() > 0 {
        lemma_pieces_len(s.drop_last());
    }
}

fn indent_line(l: &Vec<char>, strip: bool) -> (r: String)
    ensures
        r@ == indent(if strip { strip_cr(l@) } else { l@ }),
{
    let mut line = chars_of("    ");
    let mut n = l.len();
    if strip && n > 0 && l[n - 1] == '\r' {
        n = n - 1;
    }
    let mut i: usize = 0;
    while i < n
        invariant
            n <= l@.len(),
            i <= n,
            line@ == "    "@ + l@.subrange(0, i as int),
        decreases n - i,
    {
        line.push(l[i]);
        i += 1;
        assert(line@ =~= "    "@ + l@.subrange(0, i as int));
    }
    assert(l@.subrange(0, l@.len() as int) =~= l@);
    assert(l@.len() > 0 ==> l@.subrange(0, l@.len() - 1) =~= l@.drop_last());
    string_of(&line)
}

/// The lines of a text, each indented by four spaces.
pub fn indented_lines(text: &str) -> (r: Vec<String>)
    ensures
        strings_view(r@) == indented(text@),
{
    let chars = chars_of(text);
    let mut done: Vec<String> = Vec::new();
    let mut cur: Vec<char> = Vec::new();
    let mut i: usize = 0;
    assert(chars@.subrange(0, 0) =~= Seq::<char>::empty());
    while i < chars.len()
        invariant
            i <= chars@.len(),
            pieces(chars@.subrange(0, i as int)).len() == done@.len() + 1,
            pieces(chars@.subrange(0, i as int)).last() == cur@,
            strings_view(done@) == pieces(chars@.subrange(0, i as int)).drop_last().map_values(
                |l: Seq<char>| indent(strip_cr(l)),
            ),
        decreases chars@.len() - i,
    {
        let ghost prev = chars@.subrange(0, i as int);
        let ghost next = chars@.subrange(0, i + 1);
        assert(next.drop_last() =~= prev);
        assert(next.last() == chars@[i as int]);
        let c = chars[i];
        proof {
            lemma_pieces_len(prev);
        }
        let ghost old_cur = cur@;
        let ghost old_done = strings_view(done@);
        if c == '\n' {
            let line = indent_line(&cur, true);
            done.push(line);
            assert(strings_view(done@) =~= old_done.push(indent(strip_cr(old_cur))));
            cur = Vec::new();
            assert(pieces(next) == pieces(prev).push(Seq::empty()));
            assert(pieces(next).drop_last() =~= pieces(prev));
            assert(pieces(prev) =~= pieces(prev).drop_last().push(pieces(prev).last()));
            assert(strings_view(done@) =~= pieces(next).drop_last().map_values(|l: Seq<char>| indent(strip_cr(l))));
        } else {
            cur.push(c);
            assert(pieces(next).drop_last() =~= pieces(prev).drop_last());
            assert(strings_view(done@) =~= pieces(next).drop_last().map_values(|l: Seq<char>| indent(strip_cr(l))));
        }
        i += 1;
    }
    assert(chars@.subrange(0, chars@.len() as int) =~= chars@);
    let ghost p = pieces(text@);
    let ghost ended = p.drop_last().map_values(|l: Seq<char>| strip_cr(l));
    assert(ended.map_values(|l: Seq<char>| indent(l)) =~= p.drop_last().map_values(
        |l: Seq<char>| indent(strip_cr(l)),
    ));
    let ghost old_done = strings_view(done@);
    if cur.len() > 0 {
        let line = indent_line(&cur, false);
        done.push(line);
        assert(strings_view(done@) =~= old_done.push(indent(p.last())));
        assert(ended.push(p.last()).map_values(|l: Seq<char>| indent(l)) =~= ended.map_values(
            |l: Seq<char>| indent(l),
        ).push(indent(p.last())));
    }
    assert(strings_view(done@) =~= indented(text@));
    done
}

/// Canonicalizes text for comparison: line breaks become spaces, one pass
/// turns double spaces into single ones, and the result is upper-cased.
pub fn normalize(text: &str) -> (r: String)
    ensures
        r@ == normalized(text@),
{
    let chars = chars_of(text);
    let spaced = blank_breaks_exec(&chars);
    let collapsed = collapse_exec(&spaced);
    let upper = upper_exec(&collapsed);
    string_of(&upper)
}

} // verus!
