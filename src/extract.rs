//! Extraction of payment facts from a message body.
use vstd::prelude::*;

verus! {

/// The payment-notification template: the payee's name up to the end of
/// its line, then a rupee amount with an optional two-digit fraction, then
/// the debited account.
pub const PAYMENT_PATTERN: &'static str =
    r"(?s)Paid to\s*:\s*(.+?)\s*[\r\n].*?\x{20B9}\s*(\d+(?:\.\d{2})?).*?Debited from\s*:\s*([A-Z0-9]+)";

/// The capture groups of the leftmost-first match of `pattern` in `text`,
/// group 0 being the whole match and `None` a group that took no part; the
/// outer `None` when the pattern does not compile or nothing matches.
pub uninterp spec fn regex_captures(pattern: Seq<char>, text: Seq<char>) -> Option<Seq<Option<Seq<char>>>>;

/// `s` without leading and trailing whitespace.
pub uninterp spec fn trimmed(s: Seq<char>) -> Seq<char>;

/// The text of bytes decoded as UTF-8, each ill-formed sequence replaced
/// by U+FFFD.
pub uninterp spec fn lossy_text(bytes: Seq<u8>) -> Seq<char>;

pub open spec fn group_views(g: Seq<Option<String>>) -> Seq<Option<Seq<char>>> {
    g.map_values(|o: Option<String>| match o {
        Some(s) => Some(s@),
        None => None,
    })
}

pub open spec fn captures_view(r: Option<Vec<Option<String>>>) -> Option<Seq<Option<Seq<char>>>> {
    match r {
        Some(g) => Some(group_views(g@)),
        None => None,
    }
}

/// Relies on `regex::Regex::new` to compile the pattern and on
/// `regex::Regex::captures` for the groups of the first match.
#[verifier::external_body]
fn captures(pattern: &str, text: &str) -> (r: Option<Vec<Option<String>>>)
    ensures
        captures_view(r) == regex_captures(pattern@, text@),
{
    let re = regex::Regex::new(pattern).ok()?;
    let caps = re.captures(text)?;
    Some(caps.iter().map(|m| m.map(|m| m.as_str().to_string())).collect())
}

/// Relies on `str::trim`: the string without leading and trailing
/// whitespace; an empty string stays empty.
#[verifier::external_body]
fn trim(s: &str) -> (r: String)
    ensures
        r@ == trimmed(s@),
{
    s.trim().to_string()
}

/// Relies on `String::from_utf8_lossy`: well-formed UTF-8 decodes to the
/// characters it encodes.
#[verifier::external_body]
pub(crate) fn utf8_lossy(bytes: &[u8]) -> (r: String)
    ensures
        r@ == lossy_text(bytes@),
        vstd::utf8::valid_utf8(bytes@) ==> r@ == vstd::utf8::decode_utf8(bytes@),
{
    String::from_utf8_lossy(bytes).into_owned()
}

/// Receiver, amount and sender read from a payment notification; each is
/// empty when the notification is absent.
#[derive(Debug, Clone)]
pub struct PaymentFacts {
    pub receiver: String,
    pub amount: String,
    pub sender: String,
}

/// The trimmed text of group `i`, or the empty string when the group is
/// missing.
pub open spec fn group_text(g: Seq<Option<Seq<char>>>, i: int) -> Seq<char> {
    if 0 <= i < g.len() && g[i] is Some {
        trimmed(g[i]->0)
    } else {
        Seq::empty()
    }
}

/// Facts extracted from `text` by the payment template.
pub open spec fn payment_facts_of(text: Seq<char>) -> (Seq<char>, Seq<char>, Seq<char>) {
    match regex_captures(PAYMENT_PATTERN@, text) {
        Some(g) => (group_text(g, 1), group_text(g, 2), group_text(g, 3)),
        None => (Seq::empty(), Seq::empty(), Seq::empty()),
    }
}

fn group_at(g: &Vec<Option<String>>, i: usize) -> (r: String)
    ensures
        r@ == group_text(group_views(g@), i as int),
{
    if i < g.len() {
        match &g[i] {
            Some(s) => trim(s.as_str()),
            None => String::new(),
        }
    } else {
        String::new()
    }
}

impl PaymentFacts {
    pub open spec fn view_triple(&self) -> (Seq<char>, Seq<char>, Seq<char>) {
        (self.receiver@, self.amount@, self.sender@)
    }

    /// Runs the payment template once over `text`.
    pub fn extract(text: &str) -> (r: PaymentFacts)
        ensures
            r.view_triple() == payment_facts_of(text@),
    {
        match captures(PAYMENT_PATTERN, text) {
            Some(g) => PaymentFacts { receiver: group_at(&g, 1), amount: group_at(&g, 2), sender: group_at(&g, 3) },
            None => PaymentFacts { receiver: String::new(), amount: String::new(), sender: String::new() },
        }
    }

    /// Runs the payment template over raw message bytes read as text.
    pub fn extract_from_bytes(raw: &[u8]) -> (r: PaymentFacts)
        ensures
            r.view_triple() == payment_facts_of(lossy_text(raw@)),
    {
        let text = utf8_lossy(raw);
        PaymentFacts::extract(text.as_str())
    }
}


/// The trimmed first capture group of `pattern`'s first match in `content`.
pub open spec fn info_of(content: Seq<char>, pattern: Seq<char>) -> Option<Seq<char>> {
    match regex_captures(pattern, content) {
        Some(g) => if 1 < g.len() && g[1] is Some {
            Some(trimmed(g[1]->0))
        } else {
            None
        },
        None => None,
    }
}

/// Reads one field of a message: the first capture group of `pattern`,
/// trimmed; `None` when nothing matches or the group took no part.
pub fn extract_info(content: &str, pattern: &str) -> (r: Option<String>)
    ensures
        match r {
            Some(v) => info_of(content@, pattern@) == Some(v@),
            None => info_of(content@, pattern@) is None,
        },
{
    match captures(pattern, content) {
        Some(g) => if 1 < g.len() {
            match &g[1] {
                Some(s) => Some(trim(s.as_str())),
                None => None,
            }
        } else {
            None
        },
        None => None,
    }
}

} // verus!
