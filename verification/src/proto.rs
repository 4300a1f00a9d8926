//! The IRC message codec: the `Message` value, serialization to a wire line,
//! and parsing of a wire line, with a proof that serializing a well-formed
//! message and parsing it back yields the same message.

use vstd::prelude::*;
use vstd::string::*;
use crate::strutil::{
    contains_char, find_char, find_char_spec, lemma_concat_not_contains, lemma_find_absent,
    lemma_find_char_spec, lemma_find_in_concat, push_char, split_on, split_on_spec,
};

verus! {

// ---------------------------------------------------------------------------
// The message value and its mathematical view
// ---------------------------------------------------------------------------

/// IRCv3 message tags: ordered `(key, optional value)` pairs.
#[derive(Debug, Clone, PartialEq, Eq)]
pub struct Tags(pub Vec<(String, Option<String>)>);

/// The raw source of a message: a server name or `nick!user@host`.
#[derive(Debug, Clone, PartialEq, Eq)]
pub struct Prefix {
    pub raw: String,
}

/// One parsed IRC line.
#[derive(Debug, Clone, PartialEq, Eq)]
pub struct Message {
    pub tags: Option<Tags>,
    pub prefix: Option<Prefix>,
    pub command: String,
    pub params: Vec<String>,
}

/// The abstract value of a `Message`.
pub struct MessageView {
    pub tags: Option<Seq<(Seq<char>, Option<Seq<char>>)>>,
    pub prefix: Option<Seq<char>>,
    pub command: Seq<char>,
    pub params: Seq<Seq<char>>,
}

impl View for Tags {
    type V = Seq<(Seq<char>, Option<Seq<char>>)>;

    open spec fn view(&self) -> Seq<(Seq<char>, Option<Seq<char>>)> {
        self.0.deep_view()
    }
}

impl View for Prefix {
    type V = Seq<char>;

    open spec fn view(&self) -> Seq<char> {
        self.raw@
    }
}

impl View for Message {
    type V = MessageView;

    open spec fn view(&self) -> MessageView {
        MessageView {
            tags: match self.tags {
                Some(t) => Some(t@),
                None => None,
            },
            prefix: match self.prefix {
                Some(p) => Some(p@),
                None => None,
            },
            command: self.command@,
            params: self.params.deep_view(),
        }
    }
}

impl Default for Tags {
    /// An empty tag list.
    fn default() -> (r: Self)
        ensures
            r@ == Seq::<(Seq<char>, Option<Seq<char>>)>::empty(),
    {
        Tags(Vec::new())
    }
}

/// Failure to parse an inbound line.
#[derive(Debug, Clone, Copy, PartialEq, Eq, Structural)]
pub enum ParseError {
    MalformedMessage,
}

// ---------------------------------------------------------------------------
// Serialization, in specification
// ---------------------------------------------------------------------------

/// One tag on the wire: `key` alone or `key=value`.
pub open spec fn tag_str(kv: (Seq<char>, Option<Seq<char>>)) -> Seq<char> {
    match kv.1 {
        None => kv.0,
        Some(v) => kv.0 + seq!['='] + v,
    }
}

/// The tag block on the wire: tags joined with `;`.
pub open spec fn tags_str(ts: Seq<(Seq<char>, Option<Seq<char>>)>) -> Seq<char>
    decreases ts.len(),
{
    if ts.len() == 0 {
        seq![]
    } else if ts.len() == 1 {
        tag_str(ts[0])
    } else {
        tag_str(ts[0]) + seq![';'] + tags_str(ts.drop_first())
    }
}

/// Appending one more tag to a non-empty block adds `;` and the tag.
proof fn lemma_tags_str_push(ts: Seq<(Seq<char>, Option<Seq<char>>)>, x: (Seq<char>, Option<Seq<char>>))
    requires
        ts.len() >= 1,
    ensures
        tags_str(ts.push(x)) == tags_str(ts) + seq![';'] + tag_str(x),
    decreases ts.len(),
{
    if ts.len() == 1 {
        assert(ts.push(x).drop_first() =~= seq![x]);
        assert(tags_str(seq![x]) == tag_str(x));
        assert(tags_str(ts.push(x)) =~= tag_str(ts[0]) + seq![';'] + tag_str(x));
    } else {
        assert(ts.push(x).drop_first() =~= ts.drop_first().push(x));
        lemma_tags_str_push(ts.drop_first(), x);
        assert(tags_str(ts.push(x)) =~= tags_str(ts) + seq![';'] + tag_str(x));
    }
}

/// Whether the final parameter must be sent behind a `:` sigil: when it is
/// empty, contains a space, or itself opens with `:` (a bare one would be
/// read as the sigil and stripped on the way back).
pub open spec fn needs_colon(p: Seq<char>) -> bool {
    p.len() == 0 || p.contains(' ') || p[0] == ':'
}

/// The final parameter on the wire.
pub open spec fn last_param_str(p: Seq<char>) -> Seq<char> {
    if needs_colon(p) {
        seq![':'] + p
    } else {
        p
    }
}

/// The non-final parameters on the wire: each preceded by one space.
pub open spec fn params_mid(ps: Seq<Seq<char>>) -> Seq<char>
    decreases ps.len(),
{
    if ps.len() == 0 {
        seq![]
    } else {
        seq![' '] + ps[0] + params_mid(ps.drop_first())
    }
}

/// The whole parameter block on the wire.
pub open spec fn params_str(ps: Seq<Seq<char>>) -> Seq<char> {
    if ps.len() == 0 {
        seq![]
    } else {
        params_mid(ps.take(ps.len() - 1)) + seq![' '] + last_param_str(ps.last())
    }
}

/// A serialized message, without the trailing CRLF.
pub open spec fn serialize_body(m: MessageView) -> Seq<char> {
    (match m.tags {
        Some(ts) => seq!['@'] + tags_str(ts) + seq![' '],
        None => seq![],
    }) + (match m.prefix {
        Some(p) => seq![':'] + p + seq![' '],
        None => seq![],
    }) + m.command + params_str(m.params)
}

/// A serialized message: the body followed by CRLF.
pub open spec fn serialize_spec(m: MessageView) -> Seq<char> {
    serialize_body(m) + seq!['\r', '\n']
}

/// Appending one more non-final parameter extends the middle block.
proof fn lemma_params_mid_push(ps: Seq<Seq<char>>, x: Seq<char>)
    ensures
        params_mid(ps.push(x)) == params_mid(ps) + seq![' '] + x,
    decreases ps.len(),
{
    if ps.len() == 0 {
        assert(ps.push(x)[0] == x);
        assert(ps.push(x).drop_first() =~= Seq::<Seq<char>>::empty());
        assert(params_mid(ps.push(x).drop_first()) == Seq::<char>::empty());
        assert(params_mid(ps.push(x)) == seq![' '] + x + params_mid(ps.push(x).drop_first()));
        assert(params_mid(ps.push(x)) =~= seq![' '] + x);
        assert(params_mid(ps) + seq![' '] + x =~= seq![' '] + x);
    } else {
        assert(ps.push(x).drop_first() =~= ps.drop_first().push(x));
        lemma_params_mid_push(ps.drop_first(), x);
        assert(params_mid(ps.push(x)) =~= params_mid(ps) + seq![' '] + x);
    }
}

// ---------------------------------------------------------------------------
// Serialization, executable
// ---------------------------------------------------------------------------

/// The wire form of one tag list, `@` sigil and trailing space included.
fn tags_to_string(tags: &Tags) -> (r: String)
    ensures
        r@ == seq!['@'] + tags_str(tags@) + seq![' '],
{
    let mut out = String::new();
    push_char(&mut out, '@');
    let n = tags.0.len();
    let mut i: usize = 0;
    while i < n
        invariant
            n == tags.0.len(),
            i <= n,
            out@ == seq!['@'] + tags_str(tags@.take(i as int)),
        decreases n - i,
    {
        if i > 0 {
            push_char(&mut out, ';');
        }
        let ghost pre = out@;
        out.append(tags.0[i].0.as_str());
        if let Some(val) = &tags.0[i].1 {
            push_char(&mut out, '=');
            out.append(val.as_str());
        }
        proof {
            assert(out@ =~= pre + tag_str(tags@[i as int]));
            if i > 0 {
                lemma_tags_str_push(tags@.take(i as int), tags@[i as int]);
                assert(tags@.take(i as int).push(tags@[i as int]) =~= tags@.take(i + 1));
                assert(out@ =~= seq!['@'] + tags_str(tags@.take(i + 1)));
            } else {
                assert(tags@.take(1) =~= seq![tags@[0]]);
                assert(out@ =~= seq!['@'] + tags_str(tags@.take(1)));
            }
        }
        i += 1;
    }
    push_char(&mut out, ' ');
    proof {
        assert(tags@.take(n as int) =~= tags@);
    }
    out
}

/// The wire form of a parameter list, leading space included when non-empty.
fn params_to_string(params: &Vec<String>) -> (r: String)
    ensures
        r@ == params_str(params.deep_view()),
{
    let mut out = String::new();
    let np = params.len();
    if np == 0 {
        return out;
    }
    let mut i: usize = 0;
    while i < np - 1
        invariant
            np == params.len(),
            np >= 1,
            i <= np - 1,
            out@ == params_mid(params.deep_view().take(i as int)),
        decreases np - i,
    {
        push_char(&mut out, ' ');
        out.append(params[i].as_str());
        proof {
            lemma_params_mid_push(
                params.deep_view().take(i as int),
                params.deep_view()[i as int],
            );
            assert(params.deep_view().take(i as int).push(params.deep_view()[i as int])
                =~= params.deep_view().take(i + 1));
        }
        i += 1;
    }
    push_char(&mut out, ' ');
    let last = &params[np - 1];
    let n_last = last.as_str().unicode_len();
    let empty = n_last == 0;
    let spaced = contains_char(last.as_str(), ' ');
    let colon_first = n_last > 0 && last.as_str().get_char(0) == ':';
    if empty || spaced || colon_first {
        push_char(&mut out, ':');
    }
    out.append(last.as_str());
    proof {
        assert(params.deep_view().last() == last@);
        assert(out@ =~= params_str(params.deep_view()));
    }
    out
}

// ---------------------------------------------------------------------------
// Parsing, in specification
// ---------------------------------------------------------------------------

/// `s` with every trailing carriage return and line feed removed.
pub open spec fn trim_crlf_spec(s: Seq<char>) -> Seq<char>
    decreases s.len(),
{
    if s.len() > 0 && (s.last() == '\r' || s.last() == '\n') {
        trim_crlf_spec(s.drop_last())
    } else {
        s
    }
}

/// `s` with its leading run of spaces removed.
pub open spec fn skip_spaces_spec(s: Seq<char>) -> Seq<char>
    decreases s.len(),
{
    if s.len() > 0 && s[0] == ' ' {
        skip_spaces_spec(s.drop_first())
    } else {
        s
    }
}

/// The text before the first `c`, and the text after it; all of `s` and an
/// empty remainder if `c` does not occur.
pub open spec fn take_until_spec(s: Seq<char>, c: char) -> (Seq<char>, Seq<char>) {
    let i = find_char_spec(s, c);
    if i == -1 {
        (s, seq![])
    } else {
        (s.take(i), s.skip(i + 1))
    }
}

/// One tag from its wire form: the part before the first `=` is the key, the
/// part after it the value; no `=` means no value.
pub open spec fn parse_tag_spec(part: Seq<char>) -> (Seq<char>, Option<Seq<char>>) {
    let i = find_char_spec(part, '=');
    if i == -1 {
        (part, None)
    } else {
        (part.take(i), Some(part.skip(i + 1)))
    }
}

/// The tag list encoded by a tag block: the `;`-separated pieces, parsed.
pub open spec fn parse_tags_spec(blob: Seq<char>) -> Seq<(Seq<char>, Option<Seq<char>>)> {
    split_on_spec(blob, ';').map_values(|p: Seq<char>| parse_tag_spec(p))
}

/// The parameters encoded by the remainder of a line: space-separated tokens,
/// empty tokens skipped, with a token starting `:` turning the rest of the
/// line into one final parameter.
pub open spec fn parse_params_spec(r: Seq<char>) -> Seq<Seq<char>>
    decreases r.len(),
    via parse_params_spec_dec
{
    if r.len() == 0 {
        seq![]
    } else if r[0] == ':' {
        seq![r.drop_first()]
    } else {
        let pr = take_until_spec(r, ' ');
        if pr.0.len() == 0 {
            parse_params_spec(pr.1)
        } else {
            seq![pr.0] + parse_params_spec(pr.1)
        }
    }
}

#[via_fn]
proof fn parse_params_spec_dec(r: Seq<char>) {
    lemma_find_char_spec(r, ' ');
}

/// The message encoded by one line, or `None` where the command is missing.
pub open spec fn parse_line_spec(input: Seq<char>) -> Option<MessageView> {
    let s0 = trim_crlf_spec(input);
    let tr = if s0.len() > 0 && s0[0] == '@' {
        let p = take_until_spec(s0.drop_first(), ' ');
        (Some(parse_tags_spec(p.0)), skip_spaces_spec(p.1))
    } else {
        (None, s0)
    };
    let pr = if tr.1.len() > 0 && tr.1[0] == ':' {
        let p = take_until_spec(tr.1.drop_first(), ' ');
        (Some(p.0), skip_spaces_spec(p.1))
    } else {
        (None, tr.1)
    };
    let cr = take_until_spec(pr.1, ' ');
    if cr.0.len() == 0 {
        None
    } else {
        Some(MessageView {
            tags: tr.0,
            prefix: pr.0,
            command: cr.0,
            params: parse_params_spec(cr.1),
        })
    }
}

// ---------------------------------------------------------------------------
// Parsing, executable
// ---------------------------------------------------------------------------

/// Split `s` at the first occurrence of `ch`: the text before it, and the
/// text after it.
pub fn take_until<'a>(s: &'a str, ch: char) -> (r: (&'a str, &'a str))
    ensures
        r.0@ == take_until_spec(s@, ch).0,
        r.1@ == take_until_spec(s@, ch).1,
{
    let n = s.unicode_len();
    match find_char(s, ch) {
        None => {
            let empty = "";
            proof {
                reveal_strlit("");
                assert(empty@ =~= take_until_spec(s@, ch).1);
            }
            (s, empty)
        },
        Some(i) => {
            proof {
                lemma_find_char_spec(s@, ch);
            }
            (s.substring_char(0, i), s.substring_char(i + 1, n))
        },
    }
}

/// Strip trailing carriage returns and line feeds.
fn trim_crlf<'a>(s: &'a str) -> (r: &'a str)
    ensures
        r@ == trim_crlf_spec(s@),
    decreases s@.len(),
{
    let n = s.unicode_len();
    if n == 0 {
        return s;
    }
    let c = s.get_char(n - 1);
    if c == '\r' || c == '\n' {
        let t = s.substring_char(0, n - 1);
        proof {
            assert(s@.subrange(0, n - 1) =~= s@.drop_last());
        }
        trim_crlf(t)
    } else {
        s
    }
}

/// A character found after skipping leading spaces was in the text.
proof fn lemma_skip_spaces_contains(s: Seq<char>, x: char)
    requires
        skip_spaces_spec(s).contains(x),
    ensures
        s.contains(x),
    decreases s.len(),
{
    if s.len() > 0 && s[0] == ' ' {
        lemma_skip_spaces_contains(s.drop_first(), x);
        lemma_subrange_contains(s, 1, s.len() as int, x);
    }
}

/// Drop the leading run of spaces, so a widened gap between the tag block,
/// the prefix and the command reads the same as a single one.
fn skip_spaces<'a>(s: &'a str) -> (r: &'a str)
    ensures
        r@ == skip_spaces_spec(s@),
    decreases s@.len(),
{
    let n = s.unicode_len();
    if n > 0 && s.get_char(0) == ' ' {
        let t = s.substring_char(1, n);
        proof {
            assert(s@.subrange(1, s@.len() as int) =~= s@.drop_first());
        }
        skip_spaces(t)
    } else {
        s
    }
}

/// Parse a tag block into its `(key, optional value)` pairs.
fn parse_tags(blob: &str) -> (r: Vec<(String, Option<String>)>)
    ensures
        r.deep_view() == parse_tags_spec(blob@),
{
    let parts = split_on(blob, ';');
    let mut kvs: Vec<(String, Option<String>)> = Vec::new();
    let n = parts.len();
    let mut i: usize = 0;
    proof {
        assert(kvs.deep_view() =~= parse_tags_spec(blob@).take(0));
    }
    while i < n
        invariant
            n == parts.len(),
            i <= n,
            parts.deep_view() == split_on_spec(blob@, ';'),
            kvs.deep_view() == parse_tags_spec(blob@).take(i as int),
        decreases n - i,
    {
        proof {
            assert(parse_tags_spec(blob@).len() == n);
            assert(kvs.deep_view().len() == i as int);
            assert(kvs@.len() == i as int);
        }
        let part = parts[i].as_str();
        let pn = part.unicode_len();
        let ghost old_vec = kvs@;
        match find_char(part, '=') {
            None => {
                kvs.push((String::from_str(part), None));
                proof {
                    assert(kvs@.last().deep_view() == parse_tag_spec(part@));
                }
            },
            Some(e) => {
                proof {
                    lemma_find_char_spec(part@, '=');
                }
                let k = part.substring_char(0, e);
                let v = part.substring_char(e + 1, pn);
                kvs.push((String::from_str(k), Some(String::from_str(v))));
                proof {
                    assert(kvs@.last().deep_view() == parse_tag_spec(part@));
                }
            },
        }
        proof {
            let spec = parse_tags_spec(blob@);
            assert(spec.len() == n);
            assert(part@ == parts.deep_view()[i as int]);
            assert(parts.deep_view()[i as int] == split_on_spec(blob@, ';')[i as int]);
            assert(spec[i as int] == parse_tag_spec(split_on_spec(blob@, ';')[i as int]));
            assert(kvs@ == old_vec.push(kvs@.last()));
            assert(kvs.deep_view().len() == i + 1);
            assert forall|j: int| 0 <= j < i + 1 implies kvs.deep_view()[j] == spec.take(
                i + 1)[j] by {
                if j < i {
                    assert(kvs@[j] == old_vec[j]);
                    assert(kvs.deep_view()[j] == old_vec[j].deep_view());
                    assert(spec.take(i as int)[j] == old_vec[j].deep_view());
                } else {
                    assert(kvs.deep_view()[j] == kvs@.last().deep_view());
                }
            }
            assert(kvs.deep_view() =~= spec.take(i + 1));
        }
        i += 1;
    }
    proof {
        assert(parse_tags_spec(blob@).take(n as int) =~= parse_tags_spec(blob@));
    }
    kvs
}

/// Parse the remainder of a line after the command into parameters.
fn parse_params(r: &str) -> (out: Vec<String>)
    ensures
        out.deep_view() == parse_params_spec(r@),
    decreases r@.len(),
{
    let n = r.unicode_len();
    if n == 0 {
        let v: Vec<String> = Vec::new();
        proof {
            assert(v.deep_view() =~= parse_params_spec(r@));
        }
        return v;
    }
    if r.get_char(0) == ':' {
        let rest = r.substring_char(1, n);
        let mut v: Vec<String> = Vec::new();
        v.push(String::from_str(rest));
        proof {
            assert(r@.subrange(1, r@.len() as int) =~= r@.drop_first());
            assert(v.deep_view() =~= parse_params_spec(r@));
        }
        return v;
    }
    proof {
        lemma_find_char_spec(r@, ' ');
    }
    let pr = take_until(r, ' ');
    let mut v = parse_params(pr.1);
    if pr.0.unicode_len() > 0 {
        v.insert(0, String::from_str(pr.0));
        proof {
            assert(v.deep_view() =~= parse_params_spec(r@));
        }
    }
    v
}

/// Parse one wire line into a `Message`: optional tag block behind `@`,
/// optional prefix behind `:`, the command, then the parameters. Fails with
/// `MalformedMessage` exactly when no command token is present.
pub fn parse_line(s: &str) -> (r: Result<Message, ParseError>)
    ensures
        match r {
            Ok(m) => parse_line_spec(s@) == Some(m@),
            Err(e) => parse_line_spec(s@) is None && e == ParseError::MalformedMessage,
        },
{
    let t = trim_crlf(s);
    let tn = t.unicode_len();

    let mut tags: Option<Tags> = None;
    let rest1: &str;
    if tn > 0 && t.get_char(0) == '@' {
        let body = t.substring_char(1, tn);
        proof {
            assert(t@.subrange(1, t@.len() as int) =~= t@.drop_first());
        }
        let p = take_until(body, ' ');
        tags = Some(Tags(parse_tags(p.0)));
        rest1 = skip_spaces(p.1);
    } else {
        rest1 = t;
    }

    let mut prefix: Option<Prefix> = None;
    let rest2: &str;
    let r1n = rest1.unicode_len();
    if r1n > 0 && rest1.get_char(0) == ':' {
        let body = rest1.substring_char(1, r1n);
        proof {
            assert(rest1@.subrange(1, rest1@.len() as int) =~= rest1@.drop_first());
        }
        let p = take_until(body, ' ');
        prefix = Some(Prefix { raw: String::from_str(p.0) });
        rest2 = skip_spaces(p.1);
    } else {
        rest2 = rest1;
    }

    let c = take_until(rest2, ' ');
    if c.0.unicode_len() == 0 {
        return Err(ParseError::MalformedMessage);
    }
    let params = parse_params(c.1);
    let m = Message {
        tags,
        prefix,
        command: String::from_str(c.0),
        params,
    };
    proof {
        let mv = parse_line_spec(s@).unwrap();
        assert(m@.tags == mv.tags);
        assert(m@.prefix == mv.prefix);
        assert(m@.command == mv.command);
        assert(m@.params == mv.params);
        assert(m@ == mv);
    }
    Ok(m)
}

impl Message {
    /// Serialize this message to one wire line, CRLF included: the tag block,
    /// the prefix, the command, and the parameters, with the final parameter
    /// behind `:` exactly when it is empty, contains a space, or itself
    /// opens with `:`.
    pub fn to_line(&self) -> (r: String)
        ensures
            r@ == serialize_spec(self@),
    {
        let mut out = String::new();
        if let Some(tags) = &self.tags {
            let t = tags_to_string(tags);
            out.append(t.as_str());
        }
        if let Some(prefix) = &self.prefix {
            push_char(&mut out, ':');
            out.append(prefix.raw.as_str());
            push_char(&mut out, ' ');
        }
        out.append(self.command.as_str());
        let p = params_to_string(&self.params);
        out.append(p.as_str());
        push_char(&mut out, '\r');
        push_char(&mut out, '\n');
        proof {
            assert(out@ =~= serialize_spec(self@));
        }
        out
    }
}

// ---------------------------------------------------------------------------
// The round trip: parsing a serialized well-formed message gives it back
// ---------------------------------------------------------------------------

/// A well-formed tag: the key is free of space, `;` and `=`; the value, if
/// present, is free of space and `;`.
pub open spec fn tag_wf(kv: (Seq<char>, Option<Seq<char>>)) -> bool {
    &&& !kv.0.contains(' ')
    &&& !kv.0.contains(';')
    &&& !kv.0.contains('=')
    &&& match kv.1 {
        Some(v) => !v.contains(' ') && !v.contains(';'),
        None => true,
    }
}

/// The shape the parser itself produces on ordinary lines: components free
/// of the delimiters that serialization would re-read differently.
pub open spec fn msg_wf(m: MessageView) -> bool {
    &&& match m.tags {
        Some(ts) => ts.len() >= 1 && (forall|i: int|
            0 <= i < ts.len() ==> tag_wf(#[trigger] ts[i])),
        None => true,
    }
    &&& match m.prefix {
        Some(p) => !p.contains(' '),
        None => true,
    }
    &&& m.command.len() > 0
    &&& !m.command.contains(' ')
    &&& (m.prefix is None ==> m.command[0] != ':')
    &&& (m.tags is None && m.prefix is None ==> m.command[0] != '@')
    &&& (forall|i: int| 0 <= i < m.params.len() - 1 ==> {
        let p = #[trigger] m.params[i];
        p.len() > 0 && !p.contains(' ') && p[0] != ':'
    })
    &&& (m.params.len() > 0 ==> {
        let l = m.params.last();
        l.len() > 0 ==> l.last() != '\r' && l.last() != '\n'
    })
    &&& (m.params.len() == 0 ==> m.command.last() != '\r' && m.command.last() != '\n')
}

/// Trimming CRLF from a body that does not end in CR or LF removes exactly
/// the appended CRLF.
proof fn lemma_trim_body(x: Seq<char>)
    requires
        x.len() > 0,
        x.last() != '\r',
        x.last() != '\n',
    ensures
        trim_crlf_spec(x + seq!['\r', '\n']) == x,
{
    let s = x + seq!['\r', '\n'];
    assert(s.last() == '\n');
    assert(s.drop_last() =~= x + seq!['\r']);
    assert(trim_crlf_spec(s) == trim_crlf_spec(x + seq!['\r']));
    assert((x + seq!['\r']).last() == '\r');
    assert((x + seq!['\r']).drop_last() =~= x);
    assert(trim_crlf_spec(x + seq!['\r']) == trim_crlf_spec(x));
    assert(trim_crlf_spec(x) == x);
}

/// Taking up to `c` in `a + [c] + b` yields `a` and `b` when `a` is free
/// of `c`.
proof fn lemma_take_until_concat(a: Seq<char>, b: Seq<char>, c: char)
    requires
        !a.contains(c),
    ensures
        take_until_spec(a + seq![c] + b, c) == (a, b),
{
    let s = a + seq![c] + b;
    lemma_find_in_concat(a, b, c);
    assert(s.take(a.len() as int) =~= a);
    assert(s.skip(a.len() as int + 1) =~= b);
}

/// A serialized tag is free of space and `;`, and parses back to the tag.
proof fn lemma_tag_roundtrip(kv: (Seq<char>, Option<Seq<char>>))
    requires
        tag_wf(kv),
    ensures
        !tag_str(kv).contains(' '),
        !tag_str(kv).contains(';'),
        parse_tag_spec(tag_str(kv)) == kv,
{
    match kv.1 {
        None => {
            lemma_find_absent(kv.0, '=');
        },
        Some(v) => {
            let s = kv.0 + seq!['='] + v;
            assert(!seq!['='].contains(' ')) by {
                assert(seq!['='][0] == '=');
            }
            assert(!seq!['='].contains(';')) by {
                assert(seq!['='][0] == '=');
            }
            lemma_concat_not_contains(kv.0, seq!['='], ' ');
            lemma_concat_not_contains(kv.0 + seq!['='], v, ' ');
            assert((kv.0 + seq!['=']) + v =~= s);
            lemma_concat_not_contains(kv.0, seq!['='], ';');
            lemma_concat_not_contains(kv.0 + seq!['='], v, ';');
            lemma_find_in_concat(kv.0, v, '=');
            assert(s.take(kv.0.len() as int) =~= kv.0);
            assert(s.skip(kv.0.len() as int + 1) =~= v);
        },
    }
}

/// A serialized tag block is free of spaces and parses back to the tags,
/// order and key-only tags preserved.
pub proof fn lemma_tags_roundtrip(ts: Seq<(Seq<char>, Option<Seq<char>>)>)
    requires
        ts.len() >= 1,
        forall|i: int| 0 <= i < ts.len() ==> tag_wf(#[trigger] ts[i]),
    ensures
        !tags_str(ts).contains(' '),
        parse_tags_spec(tags_str(ts)) == ts,
    decreases ts.len(),
{
    if ts.len() == 1 {
        lemma_tag_roundtrip(ts[0]);
        lemma_find_absent(tag_str(ts[0]), ';');
        assert(split_on_spec(tags_str(ts), ';') =~= seq![tag_str(ts[0])]);
        assert(parse_tags_spec(tags_str(ts)) =~= ts);
    } else {
        let rest = ts.drop_first();
        let head = tag_str(ts[0]);
        lemma_tag_roundtrip(ts[0]);
        lemma_tags_roundtrip(rest);
        let s = head + seq![';'] + tags_str(rest);
        assert(tags_str(ts) == s);
        assert(!seq![';'].contains(' ')) by {
            assert(seq![';'][0] == ';');
        }
        lemma_concat_not_contains(head, seq![';'], ' ');
        lemma_concat_not_contains(head + seq![';'], tags_str(rest), ' ');
        assert((head + seq![';']) + tags_str(rest) =~= s);
        lemma_find_in_concat(head, tags_str(rest), ';');
        assert(s.take(head.len() as int) =~= head);
        assert(s.skip(head.len() as int + 1) =~= tags_str(rest));
        assert(split_on_spec(s, ';') =~= seq![head] + split_on_spec(tags_str(rest), ';'));
        assert forall|j: int| 0 <= j < ts.len() implies parse_tags_spec(s)[j] == ts[j] by {
            if j == 0 {
                assert(split_on_spec(s, ';')[0] == head);
            } else {
                assert(split_on_spec(s, ';')[j] == split_on_spec(tags_str(rest), ';')[j - 1]);
                assert(parse_tags_spec(tags_str(rest))[j - 1] == rest[j - 1]);
            }
        }
        assert(parse_tags_spec(s) =~= ts);
    }
}

/// The parameter block of a non-empty list starts with a space.
proof fn lemma_params_str_starts_space(ps: Seq<Seq<char>>)
    requires
        ps.len() >= 1,
    ensures
        params_str(ps).len() >= 1,
        params_str(ps)[0] == ' ',
{
    let mid = params_mid(ps.take(ps.len() - 1));
    if ps.len() == 1 {
        assert(ps.take(0) =~= Seq::<Seq<char>>::empty());
        assert(mid =~= Seq::<char>::empty());
        assert(params_str(ps) =~= seq![' '] + last_param_str(ps.last()));
    } else {
        assert(ps.take(ps.len() - 1).len() >= 1);
        assert(mid[0] == ' ');
        assert(params_str(ps)[0] == mid[0]);
    }
}

/// Unfolding the parameter block at its first parameter.
proof fn lemma_params_str_head(ps: Seq<Seq<char>>)
    requires
        ps.len() >= 2,
    ensures
        params_str(ps) == seq![' '] + ps[0] + params_str(ps.drop_first()),
    decreases ps.len(),
{
    let k = ps.len() - 1;
    let front = ps.take(k);
    assert(front.len() >= 1);
    assert(params_mid(front) == seq![' '] + front[0] + params_mid(front.drop_first()));
    assert(front.drop_first() =~= ps.drop_first().take(k - 1));
    assert(ps.drop_first().last() == ps.last());
    assert(params_str(ps.drop_first()) == params_mid(ps.drop_first().take(k - 1)) + seq![' ']
        + last_param_str(ps.last()));
    assert(params_str(ps) == params_mid(front) + seq![' '] + last_param_str(ps.last()));
    assert(params_str(ps) =~= seq![' '] + ps[0] + params_str(ps.drop_first()));
}

/// Whether every non-final parameter of `ps` has the shape the parser
/// produces: non-empty, space-free, not opening with `:`.
pub open spec fn params_wf(ps: Seq<Seq<char>>) -> bool {
    forall|i: int| 0 <= i < ps.len() - 1 ==> {
        let p = #[trigger] ps[i];
        p.len() > 0 && !p.contains(' ') && p[0] != ':'
    }
}

/// A serialized parameter block parses back to the parameters.
proof fn lemma_params_roundtrip(ps: Seq<Seq<char>>)
    requires
        ps.len() >= 1,
        params_wf(ps),
    ensures
        parse_params_spec(params_str(ps).drop_first()) == ps,
    decreases ps.len(),
{
    if ps.len() == 1 {
        let p = ps[0];
        assert(ps.take(0) =~= Seq::<Seq<char>>::empty());
        assert(params_str(ps) =~= seq![' '] + last_param_str(p));
        let r = params_str(ps).drop_first();
        assert(r =~= last_param_str(p));
        if needs_colon(p) {
            assert(last_param_str(p) == seq![':'] + p);
            assert(r[0] == ':');
            assert(r.drop_first() =~= p);
            assert(parse_params_spec(r) =~= ps);
        } else {
            assert(r == p);
            assert(p[0] != ':');
            lemma_find_absent(p, ' ');
            assert(take_until_spec(p, ' ').0 == p);
            assert(take_until_spec(p, ' ').1 == Seq::<char>::empty());
            assert(parse_params_spec(Seq::<char>::empty()) =~= Seq::<Seq<char>>::empty());
            assert(parse_params_spec(r) =~= ps);
        }
    } else {
        lemma_params_str_head(ps);
        let rest = ps.drop_first();
        assert(rest.last() == ps.last());
        assert(forall|i: int| 0 <= i < rest.len() - 1 ==> #[trigger] rest[i] == ps[i + 1]);
        assert(params_wf(rest));
        lemma_params_roundtrip(rest);
        lemma_params_str_starts_space(rest);
        let tail = params_str(rest).drop_first();
        let r = params_str(ps).drop_first();
        assert(r =~= ps[0] + params_str(rest));
        assert(params_str(rest) =~= seq![' '] + tail);
        assert(r =~= ps[0] + seq![' '] + tail);
        lemma_take_until_concat(ps[0], tail, ' ');
        assert(r.len() > 0);
        assert(r[0] == ps[0][0]);
        assert(r[0] != ':');
        assert(parse_params_spec(r) == seq![ps[0]] + parse_params_spec(tail));
        assert(parse_params_spec(r) =~= ps);
    }
}

/// Round trip: a well-formed message, serialized, parses back to exactly the
/// same message — tags in order, key-only tags still key-only, the final
/// parameter intact.
#[verifier::rlimit(100)]
pub proof fn lemma_parse_serialize(m: MessageView)
    requires
        msg_wf(m),
    ensures
        parse_line_spec(serialize_spec(m)) == Some(m),
{
    let body = serialize_body(m);
    let tagpart: Seq<char> = match m.tags {
        Some(ts) => seq!['@'] + tags_str(ts) + seq![' '],
        None => seq![],
    };
    let prepart: Seq<char> = match m.prefix {
        Some(p) => seq![':'] + p + seq![' '],
        None => seq![],
    };
    let cmdpart = m.command + params_str(m.params);
    assert(body == tagpart + prepart + cmdpart);

    // The body is non-empty and does not end in CR or LF.
    if m.params.len() == 0 {
        assert(params_str(m.params) =~= Seq::<char>::empty());
        assert(cmdpart =~= m.command);
        assert(body.last() == m.command.last()) by {
            assert(body =~= tagpart + prepart + m.command);
            assert(body.len() == tagpart.len() + prepart.len() + m.command.len());
        }
    } else {
        let l = m.params.last();
        let lp = last_param_str(l);
        assert(params_str(m.params).last() == lp.last());
        assert(body.last() == params_str(m.params).last()) by {
            assert(params_str(m.params).len() > 0);
        }
        if needs_colon(l) {
            if l.len() == 0 {
                assert(lp =~= seq![':']);
                assert(lp.last() == ':');
            } else {
                assert(lp.last() == l.last());
            }
        } else {
            assert(lp == l);
        }
    }
    lemma_trim_body(body);
    assert(trim_crlf_spec(serialize_spec(m)) == body);

    // Tag section.
    let s1: Seq<char> = prepart + cmdpart;
    match m.tags {
        Some(ts) => {
            lemma_tags_roundtrip(ts);
            assert(body[0] == '@');
            assert(body.len() > 0);
            assert(body.drop_first() =~= tags_str(ts) + seq![' '] + s1);
            lemma_take_until_concat(tags_str(ts), s1, ' ');
        },
        None => {
            assert(body =~= s1);
            if m.prefix is Some {
                assert(body[0] == ':');
            } else {
                assert(body[0] == m.command[0]);
            }
            assert(!(body.len() > 0 && body[0] == '@'));
        },
    }

    // Prefix section.
    let s2 = cmdpart;
    match m.prefix {
        Some(p) => {
            assert(s1[0] == ':');
            assert(s1.drop_first() =~= p + seq![' '] + s2);
            lemma_take_until_concat(p, s2, ' ');
        },
        None => {
            assert(s1 =~= s2);
            assert(s2[0] == m.command[0]);
            assert(!(s1.len() > 0 && s1[0] == ':'));
        },
    }

    // Command and parameters.
    if m.params.len() == 0 {
        assert(s2 =~= m.command);
        lemma_find_absent(m.command, ' ');
        assert(take_until_spec(s2, ' ').0 == m.command);
        assert(take_until_spec(s2, ' ').1 == Seq::<char>::empty());
        assert(parse_params_spec(Seq::<char>::empty()) =~= Seq::<Seq<char>>::empty());
        assert(parse_params_spec(Seq::<char>::empty()) == m.params);
    } else {
        lemma_params_str_starts_space(m.params);
        let tail = params_str(m.params).drop_first();
        assert(s2 =~= m.command + seq![' '] + tail);
        lemma_take_until_concat(m.command, tail, ' ');
        assert(params_wf(m.params));
        lemma_params_roundtrip(m.params);
    }

    let got = parse_line_spec(serialize_spec(m)).unwrap();
    assert(got.tags == m.tags);
    assert(got.prefix == m.prefix);
    assert(got.command == m.command);
    assert(got.params == m.params);
    assert(parse_line_spec(serialize_spec(m)) == Some(m));
}

// ---------------------------------------------------------------------------
// The parser's output is well-formed
// ---------------------------------------------------------------------------

/// A character found in a subrange is found in the whole.
proof fn lemma_subrange_contains(s: Seq<char>, a: int, b: int, x: char)
    requires
        0 <= a <= b <= s.len(),
        s.subrange(a, b).contains(x),
    ensures
        s.contains(x),
{
    let j = choose|j: int| 0 <= j < s.subrange(a, b).len() && s.subrange(a, b)[j] == x;
    assert(s[a + j] == x);
}

/// With no trailing carriage return or line feed there is nothing to trim.
proof fn lemma_trim_noop(s: Seq<char>)
    requires
        !s.contains('\r'),
        !s.contains('\n'),
    ensures
        trim_crlf_spec(s) == s,
{
    if s.len() > 0 {
        assert(s[s.len() - 1] == s.last());
        assert(s.last() != '\r' && s.last() != '\n');
    }
}

/// The head of a `take_until` split is free of the separator, and neither
/// side holds a character the whole is free of.
proof fn lemma_take_until_props(s: Seq<char>, c: char)
    ensures
        !take_until_spec(s, c).0.contains(c),
        forall|x: char|
            !s.contains(x) ==> !take_until_spec(s, c).0.contains(x) && !take_until_spec(
                s,
                c,
            ).1.contains(x),
{
    lemma_find_char_spec(s, c);
    let i = find_char_spec(s, c);
    let h = take_until_spec(s, c).0;
    let t = take_until_spec(s, c).1;
    if h.contains(c) {
        let j = choose|j: int| 0 <= j < h.len() && h[j] == c;
        if i == -1 {
            assert(s[j] == c);
        } else {
            assert(s[j] == c);
        }
        assert(false);
    }
    assert forall|x: char| !s.contains(x) implies !h.contains(x) && !t.contains(x) by {
        if h.contains(x) {
            if i == -1 {
                assert(h == s);
            } else {
                lemma_subrange_contains(s, 0, i, x);
            }
        }
        if t.contains(x) {
            if i == -1 {
                assert(t.len() == 0);
                assert(false);
            } else {
                lemma_subrange_contains(s, i + 1, s.len() as int, x);
            }
        }
    }
}

/// Every piece of a split is free of the separator and of any character the
/// whole is free of, and there is at least one piece.
proof fn lemma_split_on_pieces(s: Seq<char>, sep: char)
    ensures
        split_on_spec(s, sep).len() >= 1,
        forall|j: int|
            0 <= j < split_on_spec(s, sep).len() ==> !(#[trigger] split_on_spec(s, sep)[
                j
            ]).contains(sep),
        forall|x: char, j: int|
            !s.contains(x) && 0 <= j < split_on_spec(s, sep).len() ==> !(
            #[trigger] split_on_spec(s, sep)[j].contains(x)),
    decreases s.len(),
{
    lemma_find_char_spec(s, sep);
    let i = find_char_spec(s, sep);
    let ps = split_on_spec(s, sep);
    if i == -1 {
        assert(ps == seq![s]);
        assert forall|j: int| 0 <= j < ps.len() implies !(#[trigger] ps[j]).contains(sep) by {
            if ps[j].contains(sep) {
                let k = choose|k: int| 0 <= k < s.len() && s[k] == sep;
                assert(false);
            }
        }
        assert forall|x: char, j: int|
            !s.contains(x) && 0 <= j < ps.len() implies !(#[trigger] ps[j].contains(x)) by {
            assert(ps[j] == s);
        }
    } else {
        let head = s.take(i);
        let rest = s.skip(i + 1);
        lemma_split_on_pieces(rest, sep);
        assert(ps == seq![head] + split_on_spec(rest, sep));
        assert forall|j: int| 0 <= j < ps.len() implies !(#[trigger] ps[j]).contains(sep) by {
            if j == 0 {
                assert(ps[0] == head);
                if head.contains(sep) {
                    let k = choose|k: int| 0 <= k < head.len() && head[k] == sep;
                    assert(s[k] == sep);
                    assert(false);
                }
            } else {
                assert(ps[j] == split_on_spec(rest, sep)[j - 1]);
            }
        }
        assert forall|x: char, j: int|
            !s.contains(x) && 0 <= j < ps.len() implies !(#[trigger] ps[j].contains(x)) by {
            if j == 0 {
                assert(ps[0] == head);
                if head.contains(x) {
                    lemma_subrange_contains(s, 0, i, x);
                }
            } else {
                assert(ps[j] == split_on_spec(rest, sep)[j - 1]);
                if rest.contains(x) {
                    lemma_subrange_contains(s, i + 1, s.len() as int, x);
                }
            }
        }
    }
}

/// A tag parsed from a piece free of space and `;` is well-formed.
proof fn lemma_parse_tag_wf(part: Seq<char>)
    requires
        !part.contains(' '),
        !part.contains(';'),
    ensures
        tag_wf(parse_tag_spec(part)),
{
    lemma_find_char_spec(part, '=');
    let i = find_char_spec(part, '=');
    let kv = parse_tag_spec(part);
    if i == -1 {
        assert(kv.0 == part);
    } else {
        assert(kv.0 == part.take(i));
        if kv.0.contains('=') {
            let k = choose|k: int| 0 <= k < kv.0.len() && kv.0[k] == '=';
            assert(part[k] == '=');
            assert(false);
        }
        assert forall|x: char| !part.contains(x) implies !kv.0.contains(x) by {
            if kv.0.contains(x) {
                lemma_subrange_contains(part, 0, i, x);
            }
        }
        let v = part.skip(i + 1);
        assert forall|x: char| !part.contains(x) implies !v.contains(x) by {
            if v.contains(x) {
                lemma_subrange_contains(part, i + 1, part.len() as int, x);
            }
        }
    }
}

/// The tags parsed from a space-free blob are non-empty and well-formed.
proof fn lemma_parse_tags_wf(blob: Seq<char>)
    requires
        !blob.contains(' '),
    ensures
        parse_tags_spec(blob).len() >= 1,
        forall|j: int|
            0 <= j < parse_tags_spec(blob).len() ==> tag_wf(#[trigger] parse_tags_spec(blob)[j]),
{
    lemma_split_on_pieces(blob, ';');
    let pieces = split_on_spec(blob, ';');
    assert forall|j: int|
        0 <= j < parse_tags_spec(blob).len() implies tag_wf(
        #[trigger] parse_tags_spec(blob)[j]) by {
        assert(parse_tags_spec(blob)[j] == parse_tag_spec(pieces[j]));
        assert(!pieces[j].contains(' '));
        assert(!pieces[j].contains(';'));
        lemma_parse_tag_wf(pieces[j]);
    }
}

/// Parsed parameters have the parser's shape: non-final ones are non-empty,
/// space-free and never open with `:`, and no parameter holds a carriage
/// return or line feed the line itself is free of.
proof fn lemma_parse_params_wf(r: Seq<char>)
    requires
        !r.contains('\r'),
        !r.contains('\n'),
    ensures
        forall|i: int|
            0 <= i < parse_params_spec(r).len() - 1 ==> {
                let p = #[trigger] parse_params_spec(r)[i];
                p.len() > 0 && !p.contains(' ') && p[0] != ':'
            },
        forall|i: int|
            0 <= i < parse_params_spec(r).len() ==> !(#[trigger] parse_params_spec(r)[
            i]).contains('\r') && !parse_params_spec(r)[i].contains('\n'),
    decreases r.len(),
{
    let ps = parse_params_spec(r);
    if r.len() == 0 {
    } else if r[0] == ':' {
        let p = r.drop_first();
        assert(ps == seq![p]);
        assert forall|i: int|
            0 <= i < ps.len() implies !(#[trigger] ps[i]).contains('\r') && !ps[i].contains(
            '\n') by {
            assert(ps[i] == p);
            if p.contains('\r') {
                lemma_subrange_contains(r, 1, r.len() as int, '\r');
            }
            if p.contains('\n') {
                lemma_subrange_contains(r, 1, r.len() as int, '\n');
            }
        }
    } else {
        lemma_find_char_spec(r, ' ');
        lemma_take_until_props(r, ' ');
        let pr = take_until_spec(r, ' ');
        lemma_parse_params_wf(pr.1);
        let rec = parse_params_spec(pr.1);
        let fi = find_char_spec(r, ' ');
        if pr.0.len() > 0 {
            assert(ps == seq![pr.0] + rec);
            assert(pr.0[0] == r[0]) by {
                if fi != -1 {
                    assert(pr.0 == r.take(fi));
                }
            }
            assert forall|i: int|
                0 <= i < ps.len() - 1 implies ({
                    let p = #[trigger] ps[i];
                    p.len() > 0 && !p.contains(' ') && p[0] != ':'
                }) by {
                if i == 0 {
                    assert(ps[0] == pr.0);
                } else {
                    assert(ps[i] == rec[i - 1]);
                }
            }
            assert forall|i: int|
                0 <= i < ps.len() implies !(#[trigger] ps[i]).contains('\r') && !ps[i].contains(
                '\n') by {
                if i == 0 {
                    assert(ps[0] == pr.0);
                } else {
                    assert(ps[i] == rec[i - 1]);
                }
            }
        } else {
            assert(ps == rec);
        }
    }
}

/// On a line free of carriage returns and line feeds, everything the parser
/// accepts is well-formed.
pub proof fn lemma_parse_output_wf(s: Seq<char>, m: MessageView)
    requires
        !s.contains('\r'),
        !s.contains('\n'),
        parse_line_spec(s) == Some(m),
    ensures
        msg_wf(m),
{
    lemma_trim_noop(s);
    let s0 = s;

    // Tag section.
    let tr: (Option<Seq<(Seq<char>, Option<Seq<char>>)>>, Seq<char>) = if s0.len() > 0 && s0[0]
        == '@' {
        let p = take_until_spec(s0.drop_first(), ' ');
        (Some(parse_tags_spec(p.0)), skip_spaces_spec(p.1))
    } else {
        (None, s0)
    };
    let s1 = tr.1;
    if s0.len() > 0 && s0[0] == '@' {
        let body = s0.drop_first();
        assert(!body.contains('\r') && !body.contains('\n')) by {
            if body.contains('\r') {
                lemma_subrange_contains(s0, 1, s0.len() as int, '\r');
            }
            if body.contains('\n') {
                lemma_subrange_contains(s0, 1, s0.len() as int, '\n');
            }
        }
        lemma_take_until_props(body, ' ');
        lemma_parse_tags_wf(take_until_spec(body, ' ').0);
    }
    assert(!s1.contains('\r') && !s1.contains('\n')) by {
        if s0.len() > 0 && s0[0] == '@' {
            let body = s0.drop_first();
            lemma_take_until_props(body, ' ');
            if s1.contains('\r') {
                lemma_skip_spaces_contains(take_until_spec(body, ' ').1, '\r');
            }
            if s1.contains('\n') {
                lemma_skip_spaces_contains(take_until_spec(body, ' ').1, '\n');
            }
            if body.contains('\r') {
                lemma_subrange_contains(s0, 1, s0.len() as int, '\r');
            }
            if body.contains('\n') {
                lemma_subrange_contains(s0, 1, s0.len() as int, '\n');
            }
        }
    }

    // Prefix section.
    let pr: (Option<Seq<char>>, Seq<char>) = if s1.len() > 0 && s1[0] == ':' {
        let p = take_until_spec(s1.drop_first(), ' ');
        (Some(p.0), skip_spaces_spec(p.1))
    } else {
        (None, s1)
    };
    let s2 = pr.1;
    if s1.len() > 0 && s1[0] == ':' {
        let body = s1.drop_first();
        lemma_take_until_props(body, ' ');
    }
    assert(!s2.contains('\r') && !s2.contains('\n')) by {
        if s1.len() > 0 && s1[0] == ':' {
            let body = s1.drop_first();
            lemma_take_until_props(body, ' ');
            if s2.contains('\r') {
                lemma_skip_spaces_contains(take_until_spec(body, ' ').1, '\r');
            }
            if s2.contains('\n') {
                lemma_skip_spaces_contains(take_until_spec(body, ' ').1, '\n');
            }
            if body.contains('\r') {
                lemma_subrange_contains(s1, 1, s1.len() as int, '\r');
            }
            if body.contains('\n') {
                lemma_subrange_contains(s1, 1, s1.len() as int, '\n');
            }
        }
    }

    // Command and parameters.
    lemma_find_char_spec(s2, ' ');
    lemma_take_until_props(s2, ' ');
    let cr = take_until_spec(s2, ' ');
    assert(cr.0.len() > 0);
    assert(m.command == cr.0);
    assert(m.params == parse_params_spec(cr.1));
    let fi = find_char_spec(s2, ' ');
    assert(cr.0[0] == s2[0]) by {
        if fi != -1 {
            assert(cr.0 == s2.take(fi));
        }
    }
    assert(m.prefix is None ==> m.command[0] != ':');
    assert(m.tags is None && m.prefix is None ==> m.command[0] != '@');
    assert(!m.command.contains('\r') && !m.command.contains('\n'));
    assert(m.params.len() == 0 ==> m.command.last() != '\r' && m.command.last() != '\n') by {
        if m.command.contains(m.command.last()) {
        }
        assert(m.command[m.command.len() - 1] == m.command.last());
    }
    assert(!cr.1.contains('\r') && !cr.1.contains('\n'));
    lemma_parse_params_wf(cr.1);
    if m.params.len() > 0 {
        let l = m.params.last();
        assert(!l.contains('\r') && !l.contains('\n'));
        if l.len() > 0 {
            assert(l[l.len() - 1] == l.last());
        }
    }
}

/// Round trip over the wire: an accepted line free of carriage returns and
/// line feeds serializes to a line that parses back to the very same
/// message.
pub proof fn lemma_accepted_line_round_trip(s: Seq<char>, m: MessageView)
    requires
        !s.contains('\r'),
        !s.contains('\n'),
        parse_line_spec(s) == Some(m),
    ensures
        parse_line_spec(serialize_spec(m)) == Some(m),
{
    lemma_parse_output_wf(s, m);
    lemma_parse_serialize(m);
}

} // verus!
