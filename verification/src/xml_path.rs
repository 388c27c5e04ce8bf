//! The dotted path-expression language.
//!
//! A path string such as `"item.1.id"` splits on `.` into segments; a
//! segment is an `Index` exactly when it is a non-empty run of decimal
//! digits whose value fits in `usize`, and an element name otherwise.
//! Parsing is total: no token is ever rejected. Serialization joins the
//! segments back with `.`, rendering an index in canonical decimal.

use vstd::prelude::*;
use crate::digits::{
    all_digits, dec_rep, digits_value, is_digit, append_dec, lemma_dec_rep,
    lemma_digits_value_prefix,
};

verus! {

/// One step of a path: a child-lookup-by-name token or a positional
/// child-lookup token.
#[derive(Debug)]
pub enum PathPart {
    Element(String),
    Index(usize),
}

/// Mathematical model of a path segment.
pub enum PathPartView {
    Element(Seq<char>),
    Index(nat),
}

impl View for PathPart {
    type V = PathPartView;

    open spec fn view(&self) -> PathPartView {
        match self {
            PathPart::Element(s) => PathPartView::Element(s@),
            PathPart::Index(i) => PathPartView::Index(*i as nat),
        }
    }
}

/// The models of a sequence of segments, in order.
pub open spec fn parts_view(parts: Seq<PathPart>) -> Seq<PathPartView> {
    parts.map_values(|p: PathPart| p@)
}

/// An ordered sequence of path segments. A path built by `parse` always
/// holds at least one segment: the empty string yields the single
/// empty-name element lookup.
#[derive(Debug)]
pub struct Path {
    pub parts: Vec<PathPart>,
}

impl View for Path {
    type V = Seq<PathPartView>;

    open spec fn view(&self) -> Seq<PathPartView> {
        parts_view(self.parts@)
    }
}

/// Tags a path with its evaluation mode: text content, child count, or
/// attribute value.
#[derive(Debug)]
pub enum PathType {
    PathText(Path),
    PathLen(Path),
    PathAttr(Path),
}

/// Reserved for stricter grammars; the current tokenization is total and
/// never produces it.
#[derive(Debug)]
pub enum PathParseError {
    EmptyPart,
}

/// Splits a character sequence on `.`; always yields at least one token,
/// and the empty string yields one empty token.
pub open spec fn split_on_dot(s: Seq<char>) -> Seq<Seq<char>>
    decreases s.len(),
{
    if s.len() == 0 {
        seq![Seq::<char>::empty()]
    } else if s[0] == '.' {
        seq![Seq::<char>::empty()] + split_on_dot(s.drop_first())
    } else {
        let rest = split_on_dot(s.drop_first());
        seq![seq![s[0]] + rest[0]] + rest.drop_first()
    }
}

/// A token is an index token exactly when it is a non-empty digit run
/// whose value fits in `usize`.
pub open spec fn is_index_token(t: Seq<char>) -> bool {
    t.len() > 0 && all_digits(t) && digits_value(t) <= usize::MAX
}

/// Total classification of one token.
pub open spec fn classify(t: Seq<char>) -> PathPartView {
    if is_index_token(t) {
        PathPartView::Index(digits_value(t))
    } else {
        PathPartView::Element(t)
    }
}

/// What `Path::parse` yields on any input string.
pub open spec fn parse_spec(s: Seq<char>) -> Seq<PathPartView> {
    split_on_dot(s).map_values(|t: Seq<char>| classify(t))
}

/// Rendering of one segment: an element name is its literal text, an
/// index its canonical decimal digits.
pub open spec fn render_part(p: PathPartView) -> Seq<char> {
    match p {
        PathPartView::Element(t) => t,
        PathPartView::Index(n) => dec_rep(n),
    }
}

/// What serialization yields: the segment renderings joined with `.`.
pub open spec fn serialize_parts(ps: Seq<PathPartView>) -> Seq<char>
    decreases ps.len(),
{
    if ps.len() == 0 {
        Seq::<char>::empty()
    } else if ps.len() == 1 {
        render_part(ps[0])
    } else {
        render_part(ps[0]) + seq!['.'] + serialize_parts(ps.drop_first())
    }
}

/// A segment that serialization can invert: an index value that fits in
/// `usize`, or an element name that neither reads as an index token nor
/// contains a dot.
pub open spec fn wf_part(p: PathPartView) -> bool {
    match p {
        PathPartView::Element(t) => !is_index_token(t) && !t.contains('.'),
        PathPartView::Index(n) => n <= usize::MAX,
    }
}

fn classify_token(t: &str) -> (r: PathPart)
    ensures
        r@ == classify(t@),
{
    let n: usize = t.unicode_len();
    if n == 0 {
        return PathPart::Element(t.to_owned());
    }
    let mut acc: usize = 0;
    let mut i: usize = 0;
    while i < n
        invariant
            0 <= i <= n,
            n == t@.len(),
            all_digits(t@.take(i as int)),
            acc == digits_value(t@.take(i as int)),
        decreases n - i,
    {
        let c: char = t.get_char(i);
        let cu: u32 = c as u32;
        if cu < '0' as u32 || cu > '9' as u32 {
            proof {
                assert(!is_digit(t@[i as int]));
                assert(!all_digits(t@));
            }
            return PathPart::Element(t.to_owned());
        }
        let d: usize = (cu - '0' as u32) as usize;
        proof {
            assert(t@.take(i + 1).drop_last() =~= t@.take(i as int));
            assert(t@.take(i + 1).last() == t@[i as int]);
            assert(digits_value(t@.take(i + 1)) == acc * 10 + d);
        }
        if acc > (usize::MAX - d) / 10 {
            proof {
                assert(acc >= (usize::MAX - d) / 10 + 1);
                vstd::arithmetic::div_mod::lemma_fundamental_div_mod((usize::MAX - d) as int, 10);
                assert(acc * 10 + d > usize::MAX);
                lemma_digits_value_prefix(t@, i + 1);
                assert(digits_value(t@) > usize::MAX);
                assert(!is_index_token(t@));
            }
            return PathPart::Element(t.to_owned());
        }
        proof {
            vstd::arithmetic::div_mod::lemma_fundamental_div_mod((usize::MAX - d) as int, 10);
            assert(acc * 10 + d <= usize::MAX);
        }
        acc = acc * 10 + d;
        i = i + 1;
    }
    proof {
        assert(t@.take(n as int) =~= t@);
        assert(is_index_token(t@));
    }
    PathPart::Index(acc)
}

impl Path {
    /// Parses a dotted path string. Tokenization is total, so the result
    /// is always `Ok`; the error type is kept for stricter future
    /// grammars.
    pub fn parse(s: &str) -> (r: Result<Path, PathParseError>)
        ensures
            r matches Ok(p) && p@ == parse_spec(s@),
    {
        let n: usize = s.unicode_len();
        let mut parts: Vec<PathPart> = Vec::new();
        let ghost mut done: Seq<Seq<char>> = Seq::empty();
        let mut start: usize = 0;
        let mut i: usize = 0;
        proof {
            assert(s@.skip(0) =~= s@);
            assert(done + split_on_dot(s@) =~= split_on_dot(s@));
        }
        while i < n
            invariant
                0 <= start <= i <= n,
                n == s@.len(),
                forall|k: int| start <= k < i ==> s@[k] != '.',
                split_on_dot(s@) == done + split_on_dot(s@.skip(start as int)),
                parts@.len() == done.len(),
                forall|j: int| 0 <= j < done.len() ==> (#[trigger] parts@[j])@ == classify(done[j]),
            decreases n - i,
        {
            let c: char = s.get_char(i);
            if c == '.' {
                let tok: &str = s.substring_char(start, i);
                let part = classify_token(tok);
                proof {
                    let tokv = s@.subrange(start as int, i as int);
                    assert(tok@ == tokv);
                    assert forall|k: int| 0 <= k < tokv.len() implies tokv[k] != '.' by {
                        assert(tokv[k] == s@[start + k]);
                    }
                    assert(!tokv.contains('.'));
                    assert(s@.skip(start as int) =~= tokv + seq!['.'] + s@.skip(i + 1));
                    lemma_split_concat(tokv, s@.skip(i + 1));
                    assert(split_on_dot(s@) =~= (done + seq![tokv]) + split_on_dot(
                        s@.skip(i + 1),
                    ));
                    done = done + seq![tokv];
                }
                parts.push(part);
                start = i + 1;
            }
            i = i + 1;
        }
        let tok: &str = s.substring_char(start, n);
        let part = classify_token(tok);
        proof {
            let tokv = s@.subrange(start as int, n as int);
            assert(tok@ == tokv);
            assert forall|k: int| 0 <= k < tokv.len() implies tokv[k] != '.' by {
                assert(tokv[k] == s@[start + k]);
            }
            assert(!tokv.contains('.'));
            assert(s@.skip(start as int) =~= tokv);
            lemma_split_no_dot(tokv);
            assert(split_on_dot(s@) =~= done + seq![tokv]);
            done = done + seq![tokv];
        }
        parts.push(part);
        let r = Path { parts };
        proof {
            assert(split_on_dot(s@) == done);
            assert(r@.len() == parse_spec(s@).len());
            assert forall|j: int| 0 <= j < r@.len() implies r@[j] == parse_spec(s@)[j] by {
                assert(r@[j] == (#[trigger] parts@[j])@);
                assert(parse_spec(s@)[j] == classify(done[j]));
            }
            assert(r@ =~= parse_spec(s@));
        }
        Ok(r)
    }

    /// Joins the segments with `.`, rendering an index as decimal digits
    /// and an element name as its literal text.
    pub fn parts_to_string(parts: &[PathPart]) -> (r: String)
        ensures
            r@ == serialize_parts(parts_view(parts@)),
    {
        let ghost views = parts_view(parts@);
        let mut out = String::new();
        let len: usize = parts.len();
        let mut idx: usize = 0;
        while idx < len
            invariant
                0 <= idx <= len,
                len == parts@.len(),
                views == parts_view(parts@),
                views.len() == len,
                idx == 0 ==> out@ == Seq::<char>::empty(),
                0 < idx < len ==> out@ == serialize_parts(views.take(idx as int)) + seq!['.'],
                idx == len && idx > 0 ==> out@ == serialize_parts(views.take(idx as int)),
            decreases len - idx,
        {
            let part: &PathPart = &parts[idx];
            let ghost out_before = out@;
            match part {
                PathPart::Element(s) => {
                    out.append(s.as_str());
                }
                PathPart::Index(index) => {
                    append_dec(*index, &mut out);
                }
            }
            proof {
                assert(part@ == views[idx as int]);
                assert(out@ == out_before + render_part(views[idx as int]));
                if idx == 0 {
                    assert(views.take(1)[0] == views[0]);
                    assert(serialize_parts(views.take(1)) == render_part(views[0]));
                    assert(out@ =~= serialize_parts(views.take(1)));
                } else {
                    assert(views.take(idx + 1) =~= views.take(idx as int).push(
                        views[idx as int],
                    ));
                    lemma_serialize_push(views.take(idx as int), views[idx as int]);
                    assert(out@ =~= serialize_parts(views.take(idx + 1)));
                }
            }
            if len - 1 != idx {
                out.append(".");
                proof {
                    reveal_strlit(".");
                    assert("."@ =~= seq!['.']);
                }
            }
            idx = idx + 1;
        }
        proof {
            if len == 0 {
                assert(views.len() == 0);
                assert(out@ =~= serialize_parts(views));
            } else {
                assert(views.take(len as int) =~= views);
            }
        }
        out
    }

    /// Renders this path back as a dotted string.
    pub fn to_string(&self) -> (r: String)
        ensures
            r@ == serialize_parts(self@),
    {
        Path::parts_to_string(self.parts.as_slice())
    }
}

/// Serializing one more segment appends a dot and its rendering.
pub proof fn lemma_serialize_push(ps: Seq<PathPartView>, p: PathPartView)
    requires
        ps.len() >= 1,
    ensures
        serialize_parts(ps.push(p)) == serialize_parts(ps) + seq!['.'] + render_part(p),
    decreases ps.len(),
{
    if ps.len() == 1 {
        assert(ps.push(p).drop_first() =~= seq![p]);
        assert(serialize_parts(seq![p]) == render_part(p));
        assert(serialize_parts(ps.push(p)) =~= serialize_parts(ps) + seq!['.'] + render_part(p));
    } else {
        assert(ps.push(p).drop_first() =~= ps.drop_first().push(p));
        lemma_serialize_push(ps.drop_first(), p);
        assert(serialize_parts(ps.push(p)) =~= serialize_parts(ps) + seq!['.'] + render_part(p));
    }
}

/// A sequence without a dot splits into exactly itself.
pub proof fn lemma_split_no_dot(a: Seq<char>)
    requires
        !a.contains('.'),
    ensures
        split_on_dot(a) == seq![a],
    decreases a.len(),
{
    if a.len() == 0 {
        assert(a =~= Seq::<char>::empty());
        assert(split_on_dot(a) == seq![a]);
    } else {
        assert(a[0] != '.');
        assert forall|k: int| 0 <= k < a.drop_first().len() implies #[trigger] a.drop_first()[k]
            != '.' by {
            assert(a.drop_first()[k] == a[k + 1]);
        }
        assert(!a.drop_first().contains('.'));
        lemma_split_no_dot(a.drop_first());
        assert(seq![a[0]] + a.drop_first() =~= a);
        assert(split_on_dot(a) =~= seq![a]);
    }
}

/// Splitting `a + "." + b` where `a` holds no dot yields `a` followed by
/// the split of `b`.
pub proof fn lemma_split_concat(a: Seq<char>, b: Seq<char>)
    requires
        !a.contains('.'),
    ensures
        split_on_dot(a + seq!['.'] + b) == seq![a] + split_on_dot(b),
    decreases a.len(),
{
    let s = a + seq!['.'] + b;
    if a.len() == 0 {
        assert(s[0] == '.');
        assert(s.drop_first() =~= b);
        assert(a =~= Seq::<char>::empty());
        assert(split_on_dot(s) =~= seq![a] + split_on_dot(b));
    } else {
        assert(s[0] == a[0]);
        assert(a[0] != '.');
        assert forall|k: int| 0 <= k < a.drop_first().len() implies #[trigger] a.drop_first()[k]
            != '.' by {
            assert(a.drop_first()[k] == a[k + 1]);
        }
        assert(!a.drop_first().contains('.'));
        assert(s.drop_first() =~= a.drop_first() + seq!['.'] + b);
        lemma_split_concat(a.drop_first(), b);
        let rest = split_on_dot(s.drop_first());
        assert(rest == seq![a.drop_first()] + split_on_dot(b));
        assert(rest[0] == a.drop_first());
        assert(rest.drop_first() =~= split_on_dot(b));
        assert(seq![s[0]] + rest[0] =~= a);
        assert(split_on_dot(s) =~= seq![a] + split_on_dot(b));
    }
}

/// No token produced by splitting contains a dot.
pub proof fn lemma_split_tokens_no_dot(s: Seq<char>)
    ensures
        forall|k: int|
            0 <= k < split_on_dot(s).len() ==> !(#[trigger] split_on_dot(s)[k]).contains('.'),
    decreases s.len(),
{
    if s.len() == 0 {
        assert(!Seq::<char>::empty().contains('.'));
    } else if s[0] == '.' {
        lemma_split_tokens_no_dot(s.drop_first());
        assert(!Seq::<char>::empty().contains('.'));
        assert forall|k: int| 0 <= k < split_on_dot(s).len() implies !(
        #[trigger] split_on_dot(s)[k]).contains('.') by {
            if k > 0 {
                assert(split_on_dot(s)[k] == split_on_dot(s.drop_first())[k - 1]);
            }
        }
    } else {
        lemma_split_tokens_no_dot(s.drop_first());
        let rest = split_on_dot(s.drop_first());
        assert(rest.len() >= 1) by {
            lemma_split_len(s.drop_first());
        }
        assert forall|k: int| 0 <= k < split_on_dot(s).len() implies !(
        #[trigger] split_on_dot(s)[k]).contains('.') by {
            if k == 0 {
                let t = seq![s[0]] + rest[0];
                assert(!rest[0].contains('.'));
                if t.contains('.') {
                    let j = choose|j: int| 0 <= j < t.len() && t[j] == '.';
                    if j == 0 {
                        assert(t[0] == s[0]);
                    } else {
                        assert(t[j] == rest[0][j - 1]);
                        assert(rest[0].contains('.'));
                    }
                }
            } else {
                assert(split_on_dot(s)[k] == rest[k]);
            }
        }
    }
}

/// Splitting always yields at least one token.
pub proof fn lemma_split_len(s: Seq<char>)
    ensures
        split_on_dot(s).len() >= 1,
    decreases s.len(),
{
}

/// Rendering a well-formed segment reads back as that same segment, and
/// the rendering holds no dot.
pub proof fn lemma_classify_render(p: PathPartView)
    requires
        wf_part(p),
    ensures
        classify(render_part(p)) == p,
        !render_part(p).contains('.'),
{
    match p {
        PathPartView::Element(t) => {
        }
        PathPartView::Index(n) => {
            lemma_dec_rep(n);
            assert(is_index_token(dec_rep(n)));
            if dec_rep(n).contains('.') {
                let j = choose|j: int| 0 <= j < dec_rep(n).len() && dec_rep(n)[j] == '.';
                assert(is_digit(dec_rep(n)[j]));
                assert(false);
            }
        }
    }
}

/// Every segment a parse yields is well formed, and a parse yields at
/// least one segment.
pub proof fn lemma_parse_wf(s: Seq<char>)
    ensures
        parse_spec(s).len() >= 1,
        forall|i: int| 0 <= i < parse_spec(s).len() ==> wf_part(#[trigger] parse_spec(s)[i]),
{
    lemma_split_len(s);
    lemma_split_tokens_no_dot(s);
    assert forall|i: int| 0 <= i < parse_spec(s).len() implies wf_part(
    #[trigger] parse_spec(s)[i]) by {
        let t = split_on_dot(s)[i];
        assert(parse_spec(s)[i] == classify(t));
    }
}

/// Serialization inverts parsing on well-formed segment sequences: for
/// every element name that is not an index token and holds no dot, and
/// every index value that fits in `usize`, parsing the serialized path
/// gives the segments back.
pub proof fn lemma_parse_serialize_parts(ps: Seq<PathPartView>)
    requires
        ps.len() >= 1,
        forall|i: int| 0 <= i < ps.len() ==> wf_part(#[trigger] ps[i]),
    ensures
        parse_spec(serialize_parts(ps)) == ps,
    decreases ps.len(),
{
    if ps.len() == 1 {
        lemma_classify_render(ps[0]);
        lemma_split_no_dot(render_part(ps[0]));
        assert(split_on_dot(serialize_parts(ps)) == seq![render_part(ps[0])]);
        assert(parse_spec(serialize_parts(ps)) =~= ps);
    } else {
        lemma_classify_render(ps[0]);
        assert forall|i: int| 0 <= i < ps.drop_first().len() implies wf_part(
        #[trigger] ps.drop_first()[i]) by {
            assert(ps.drop_first()[i] == ps[i + 1]);
        }
        lemma_parse_serialize_parts(ps.drop_first());
        lemma_split_concat(render_part(ps[0]), serialize_parts(ps.drop_first()));
        let whole = split_on_dot(serialize_parts(ps));
        assert(whole == seq![render_part(ps[0])] + split_on_dot(
            serialize_parts(ps.drop_first()),
        ));
        assert forall|i: int| 0 <= i < whole.len() implies classify(#[trigger] whole[i])
            == ps[i] by {
            if i == 0 {
                assert(whole[0] == render_part(ps[0]));
            } else {
                assert(whole[i] == split_on_dot(serialize_parts(ps.drop_first()))[i - 1]);
                assert(classify(whole[i]) == parse_spec(serialize_parts(ps.drop_first()))[i - 1]);
                assert(parse_spec(serialize_parts(ps.drop_first()))[i - 1] == ps.drop_first()[i
                    - 1]);
            }
        }
        assert(parse_spec(serialize_parts(ps)) =~= ps);
    }
}

/// Round trip over any dotted string: re-parsing the serialization of a
/// parse changes nothing.
pub proof fn lemma_parse_serialize_roundtrip(s: Seq<char>)
    ensures
        parse_spec(serialize_parts(parse_spec(s))) == parse_spec(s),
{
    lemma_parse_wf(s);
    lemma_parse_serialize_parts(parse_spec(s));
}

} // verus!
