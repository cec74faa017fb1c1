//! Email templates: a subject and a body with `{{name}}` placeholders.
use vstd::prelude::*;

use crate::device::trim;
use crate::text::{lemma_skip_spaces, spaces_back, spaces_end, starts_at};

verus! {

/// `s` with every occurrence of `pat` replaced by `val`, scanning from the left and never
/// looking inside a replacement, as `str::replace` does.
pub open spec fn replace_all(s: Seq<char>, pat: Seq<char>, val: Seq<char>) -> Seq<char>
    decreases s.len(),
{
    if pat.len() == 0 || s.len() < pat.len() {
        s
    } else if s.subrange(0, pat.len() as int) == pat {
        val + replace_all(s.subrange(pat.len() as int, s.len() as int), pat, val)
    } else {
        seq![s[0]] + replace_all(s.drop_first(), pat, val)
    }
}

/// The placeholder of `key`.
pub open spec fn placeholder(key: Seq<char>) -> Seq<char> {
    "{{"@ + key + "}}"@
}

/// The template with the first `n` parameters substituted, in order.
pub open spec fn render_spec(template: Seq<char>, params: Seq<(String, String)>, n: int) -> Seq<char>
    decreases n,
{
    if n <= 0 {
        template
    } else {
        replace_all(render_spec(template, params, n - 1), placeholder(params[n - 1].0@), params[n - 1].1@)
    }
}

/// `s` with every occurrence of `pat` replaced by `val`.
pub fn replace(s: &str, pat: &str, val: &str) -> (r: String)
    requires
        pat@.len() > 0,
    ensures
        r@ == replace_all(s@, pat@, val@),
{
    let n = s.unicode_len();
    let m = pat.unicode_len();
    let mut out = String::new();
    let mut i: usize = 0;
    assert(s@.subrange(0, s@.len() as int) =~= s@);
    while i < n
        invariant
            i <= n,
            n == s@.len(),
            m == pat@.len(),
            m > 0,
            replace_all(s@, pat@, val@) == out@ + replace_all(
                s@.subrange(i as int, n as int),
                pat@,
                val@,
            ),
        decreases n - i,
    {
        let ghost rest = s@.subrange(i as int, n as int);
        if n - i >= m && starts_at(s, i, pat) {
            assert(rest.subrange(0, m as int) =~= s@.subrange(i as int, i + m));
            assert(rest.subrange(m as int, rest.len() as int) =~= s@.subrange(i + m, n as int));
            out.append(val);
            i = i + m;
            assert(out@ + replace_all(s@.subrange(i as int, n as int), pat@, val@) =~= (out@
                .subrange(0, out@.len() - val@.len()) + (val@ + replace_all(
                s@.subrange(i as int, n as int),
                pat@,
                val@,
            ))));
        } else {
            if n - i >= m {
                assert(rest.subrange(0, m as int) =~= s@.subrange(i as int, i + m));
            }
            assert(rest.drop_first() =~= s@.subrange(i + 1, n as int));
            let one = s.substring_char(i, i + 1);
            assert(one@ =~= seq![rest[0]]);
            let ghost before = out@;
            out.append(one);
            assert(out@ + replace_all(s@.subrange(i + 1, n as int), pat@, val@) =~= before + (seq![
                rest[0],
            ] + replace_all(rest.drop_first(), pat@, val@)));
            i = i + 1;
        }
    }
    assert(s@.subrange(n as int, n as int) =~= Seq::<char>::empty());
    assert(out@ + Seq::<char>::empty() =~= out@);
    out
}

/// Substitutes each parameter's value for its `{{key}}` placeholder, parameter by
/// parameter in the given order; placeholders of keys not given stay as they are.
pub fn render_template(template: &str, params: &Vec<(String, String)>) -> (r: String)
    ensures
        r@ == render_spec(template@, params@, params@.len() as int),
{
    let mut result = String::from_str(template);
    let mut i: usize = 0;
    while i < params.len()
        invariant
            i <= params@.len(),
            result@ == render_spec(template@, params@, i as int),
        decreases params.len() - i,
    {
        let mut key = String::from_str("{{");
        key.append(params[i].0.as_str());
        key.append("}}");
        proof {
            reveal_strlit("{{");
        }
        result = replace(result.as_str(), key.as_str(), params[i].1.as_str());
        i = i + 1;
    }
    result
}

/// A placeholder alone renders to its value.
pub proof fn lemma_render_placeholder(key: Seq<char>, value: Seq<char>)
    ensures
        replace_all(placeholder(key), placeholder(key), value) == value,
{
    let p = placeholder(key);
    reveal_strlit("{{");
    assert(p.len() > 0);
    assert(p.subrange(0, p.len() as int) =~= p);
    assert(p.subrange(p.len() as int, p.len() as int) =~= Seq::<char>::empty());
    assert(replace_all(Seq::<char>::empty(), p, value) == Seq::<char>::empty());
    assert(value + Seq::<char>::empty() =~= value);
}

/// Rendering a template that is one parameter's placeholder gives that parameter's value.
pub proof fn lemma_render_single(params: Seq<(String, String)>)
    requires
        params.len() == 1,
    ensures
        render_spec(placeholder(params[0].0@), params, 1) == params[0].1@,
{
    lemma_render_placeholder(params[0].0@, params[0].1@);
    assert(render_spec(placeholder(params[0].0@), params, 0) == placeholder(params[0].0@));
}

/// A text that holds no occurrence of a placeholder is left as it is.
pub proof fn lemma_render_absent(s: Seq<char>, pat: Seq<char>, value: Seq<char>)
    requires
        forall|i: int| 0 <= i <= s.len() - pat.len() ==> #[trigger] s.subrange(i, i + pat.len()) != pat,
    ensures
        replace_all(s, pat, value) == s,
    decreases s.len(),
{
    if pat.len() == 0 || s.len() < pat.len() {
    } else {
        let z: int = 0;
        assert(s.subrange(z, z + pat.len()) != pat);
        let t = s.drop_first();
        assert forall|i: int| 0 <= i <= t.len() - pat.len() implies #[trigger] t.subrange(
            i,
            i + pat.len(),
        ) != pat by {
            assert(t.subrange(i, i + pat.len()) =~= s.subrange(i + 1, i + 1 + pat.len()));
        }
        lemma_render_absent(t, pat, value);
        assert(seq![s[0]] + t =~= s);
    }
}

/// A message template: a subject and a body.
#[derive(Debug)]
pub struct EmailTemplate {
    subject: String,
    body: String,
}

/// The position after the line that starts at `i`: after its line break, or the end.
pub open spec fn line_end(s: Seq<char>, i: int) -> int
    decreases s.len() - i,
{
    if i >= s.len() {
        s.len() as int
    } else if s[i] == '\n' {
        i + 1
    } else {
        line_end(s, i + 1)
    }
}

/// A template file: the first line is the subject, trimmed and not empty; the second line
/// is empty; the rest is the body.
pub open spec fn template_parts(text: Seq<char>) -> Result<(Seq<char>, Seq<char>), Seq<char>> {
    let e1 = line_end(text, 0);
    let e2 = line_end(text, e1);
    let subject = trim(text.subrange(0, e1));
    if subject.len() == 0 {
        Err("The first line must be a non-empty message subject"@)
    } else if exists|k: int| e1 <= k < e2 && text[k] != '\r' && text[k] != '\n' {
        Err("The second line must be an empty delimiter between message subject and body"@)
    } else {
        Ok((subject, text.subrange(e2, text.len() as int)))
    }
}

impl EmailTemplate {
    pub closed spec fn subject_view(&self) -> Seq<char> {
        self.subject@
    }

    pub closed spec fn body_view(&self) -> Seq<char> {
        self.body@
    }

    pub fn new(subject: &str, body: &str) -> (r: EmailTemplate)
        ensures
            r.subject_view() == subject@,
            r.body_view() == body@,
    {
        EmailTemplate { subject: String::from_str(subject), body: String::from_str(body) }
    }

    /// Reads a template from the text of a template file.
    pub fn from_text(text: &str) -> (r: Result<EmailTemplate, String>)
        ensures
            match template_parts(text@) {
                Ok((subject, body)) => r matches Ok(t) && t.subject_view() == subject
                    && t.body_view() == body,
                Err(m) => r matches Err(e) && e@ == m,
            },
    {
        let e1 = line_end_exec(text, 0);
        let e2 = line_end_exec(text, e1);
        let first = text.substring_char(0, e1);
        let a = spaces_end(first, 0);
        proof {
            lemma_skip_spaces(first@, 0);
        }
        let b = spaces_back(first, e1);
        assert(first@ == text@.subrange(0, e1 as int));
        if a >= b {
            assert(trim(first@) =~= Seq::<char>::empty());
            return Err(String::from_str("The first line must be a non-empty message subject"));
        }
        assert(trim(first@).len() > 0);
        let mut k = e1;
        while k < e2
            invariant
                e1 <= k <= e2 <= text@.len(),
                e1 as int == line_end(text@, 0),
                e2 as int == line_end(text@, e1 as int),
                trim(text@.subrange(0, e1 as int)).len() > 0,
                forall|j: int| e1 <= j < k ==> #[trigger] text@[j] == '\r' || text@[j] == '\n',
            decreases e2 - k,
        {
            let c = text.get_char(k);
            if c != '\r' && c != '\n' {
                assert(text@[k as int] != '\r' && text@[k as int] != '\n');
                return Err(
                    String::from_str(
                        "The second line must be an empty delimiter between message subject and body",
                    ),
                );
            }
            k = k + 1;
        }
        let subject = first.substring_char(a, b);
        let body = text.substring_char(e2, text.unicode_len());
        Ok(EmailTemplate::new(subject, body))
    }

    /// The subject and the body with the parameters substituted.
    pub fn render(&self, params: &Vec<(String, String)>) -> (r: Result<(String, String), String>)
        ensures
            r matches Ok((s, b)) && s@ == render_spec(self.subject_view(), params@, params@.len() as int)
                && b@ == render_spec(self.body_view(), params@, params@.len() as int),
    {
        Ok((render_template(self.subject.as_str(), params), render_template(self.body.as_str(), params)))
    }
}

fn line_end_exec(s: &str, i: usize) -> (r: usize)
    requires
        i <= s@.len(),
    ensures
        r as int == line_end(s@, i as int),
        i <= r <= s@.len(),
{
    let n = s.unicode_len();
    let mut j = i;
    while j < n && s.get_char(j) != '\n'
        invariant
            i <= j <= n,
            n == s@.len(),
            line_end(s@, j as int) == line_end(s@, i as int),
        decreases n - j,
    {
        j = j + 1;
    }
    if j < n {
        j + 1
    } else {
        j
    }
}

// ----- addresses -----
/// `lettre::message::Mailbox`, an address with an optional display name, carried through
/// unopened.
#[verifier::external_type_specification]
#[verifier::external_body]
pub struct ExMailbox(lettre::message::Mailbox);

/// Whether a text is an email address, bare or with a display name.
pub uninterp spec fn is_mailbox(s: Seq<char>) -> bool;

/// Relies on `lettre::message::Mailbox`'s `FromStr`: it parses `Name <user@host>` or
/// `user@host` and accepts or refuses a text by the text alone.
#[verifier::external_body]
fn parse_mailbox(s: &str) -> (r: Option<lettre::message::Mailbox>)
    ensures
        r is Some == is_mailbox(s@),
{
    s.parse::<lettre::message::Mailbox>().ok()
}

/// The sender and the recipient of the daemon's emails.
#[derive(Debug)]
pub struct Mailer {
    from: lettre::message::Mailbox,
    to: lettre::message::Mailbox,
}

impl Mailer {
    /// A mailer from two addresses; the first one refused is named in the error.
    pub fn new(from: &str, to: &str) -> (r: Result<Mailer, String>)
        ensures
            r is Ok <==> is_mailbox(from@) && is_mailbox(to@),
            r matches Err(e) ==> e@ == "Invalid email: "@ + if is_mailbox(from@) {
                to@
            } else {
                from@
            },
    {
        let f = match parse_mailbox(from) {
            Some(m) => m,
            None => {
                let mut e = String::from_str("Invalid email: ");
                e.append(from);
                return Err(e);
            },
        };
        let t = match parse_mailbox(to) {
            Some(m) => m,
            None => {
                let mut e = String::from_str("Invalid email: ");
                e.append(to);
                return Err(e);
            },
        };
        Ok(Mailer { from: f, to: t })
    }

    pub fn from(&self) -> &lettre::message::Mailbox {
        &self.from
    }

    pub fn to(&self) -> &lettre::message::Mailbox {
        &self.to
    }
}

} // verus!
