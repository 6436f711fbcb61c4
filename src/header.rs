//! Host-side choice of the DKIM signature to prove against.
use vstd::prelude::*;

verus! {

/// The tags of a DKIM tag list, each as its name and its value with
/// whitespace removed; `None` when the text is not a tag list.
pub uninterp spec fn dkim_tags(value: Seq<char>) -> Option<Seq<(Seq<char>, Seq<char>)>>;

/// The lowercase form of a string.
pub uninterp spec fn lower_of(s: Seq<char>) -> Seq<char>;

pub open spec fn tags_view(t: Seq<(String, String)>) -> Seq<(Seq<char>, Seq<char>)> {
    t.map_values(|p: (String, String)| (p.0@, p.1@))
}

/// Relies on `cfdkim::parse_tag_list`, the DKIM tag-list parser; the tags
/// depend on the text alone.
#[verifier::external_body]
fn parse_tags(value: &str) -> (r: Option<Vec<(String, String)>>)
    ensures
        match r {
            Some(t) => dkim_tags(value@) == Some(tags_view(t@)),
            None => dkim_tags(value@) is None,
        },
{
    let (_, tags) = cfdkim::parse_tag_list(value).ok()?;
    Some(tags.into_iter().map(|t| (t.name, t.value)).collect())
}

/// Relies on `str::to_lowercase`, which depends on the characters alone.
#[verifier::external_body]
fn lowercase(s: &str) -> (r: String)
    ensures
        r@ == lower_of(s@),
{
    s.to_lowercase()
}

/// Fatal outcomes on the host before any proof is attempted.
#[derive(Debug, Clone, Copy, PartialEq, Eq, Structural)]
pub enum HostError {
    /// A signature header is not a tag list.
    MalformedSignature,
    /// A signature header lacks its `d` or `s` tag.
    MissingTag,
}

/// The value of the last tag named `name`; later tags override earlier ones.
pub open spec fn tag_value(tags: Seq<(Seq<char>, Seq<char>)>, name: Seq<char>) -> Option<Seq<char>>
    decreases tags.len(),
{
    if tags.len() == 0 {
        None
    } else if tags.last().0 == name {
        Some(tags.last().1)
    } else {
        tag_value(tags.drop_last(), name)
    }
}

/// Signing domain (`d`) and key selector (`s`) of one signature header.
pub open spec fn signature_tags(value: Seq<char>) -> Result<(Seq<char>, Seq<char>), HostError> {
    match dkim_tags(value) {
        None => Err(HostError::MalformedSignature),
        Some(tags) => match (tag_value(tags, seq!['d']), tag_value(tags, seq!['s'])) {
            (Some(d), Some(s)) => Ok((d, s)),
            _ => Err(HostError::MissingTag),
        },
    }
}

/// Whether a signing domain names the expected sending domain, ignoring case.
pub open spec fn domain_matches(expected: Seq<char>, domain: Seq<char>) -> bool {
    lower_of(domain) == lower_of(expected)
}

/// Headers are read in order; the first whose domain matches is chosen,
/// and a malformed header met before it is fatal.
pub open spec fn selection(expected: Seq<char>, values: Seq<Seq<char>>) -> Result<
    Option<(Seq<char>, Seq<char>)>,
    HostError,
>
    decreases values.len(),
{
    if values.len() == 0 {
        Ok(None)
    } else {
        match signature_tags(values[0]) {
            Err(e) => Err(e),
            Ok(ds) => if domain_matches(expected, ds.0) {
                Ok(Some(ds))
            } else {
                selection(expected, values.drop_first())
            },
        }
    }
}

/// The signature chosen to prove against.
#[derive(Debug, Clone)]
pub struct SignatureRef {
    pub domain: String,
    pub selector: String,
}

pub open spec fn selection_view(r: Result<Option<SignatureRef>, HostError>) -> Result<
    Option<(Seq<char>, Seq<char>)>,
    HostError,
> {
    match r {
        Ok(Some(s)) => Ok(Some((s.domain@, s.selector@))),
        Ok(None) => Ok(None),
        Err(e) => Err(e),
    }
}

fn find_tag(tags: &Vec<(String, String)>, name: &String) -> (r: Option<String>)
    ensures
        match r {
            Some(v) => tag_value(tags_view(tags@), name@) == Some(v@),
            None => tag_value(tags_view(tags@), name@) is None,
        },
{
    let mut i: usize = tags.len();
    assert(tags@.subrange(0, i as int) =~= tags@);
    while i > 0
        invariant
            i <= tags@.len(),
            tag_value(tags_view(tags@), name@) == tag_value(tags_view(tags@.subrange(0, i as int)), name@),
        decreases i,
    {
        let ghost prefix = tags@.subrange(0, i as int);
        assert(tags_view(prefix).drop_last() =~= tags_view(tags@.subrange(0, i - 1)));
        if tags[i - 1].0 == *name {
            return Some(tags[i - 1].1.clone());
        }
        i = i - 1;
    }
    None
}

fn signature_of(value: &str) -> (r: Result<(String, String), HostError>)
    ensures
        match r {
            Ok((d, s)) => signature_tags(value@) == Ok::<(Seq<char>, Seq<char>), HostError>((d@, s@)),
            Err(e) => signature_tags(value@) == Err::<(Seq<char>, Seq<char>), HostError>(e),
        },
{
    let tags = match parse_tags(value) {
        Some(t) => t,
        None => return Err(HostError::MalformedSignature),
    };
    let d_name = "d".to_owned();
    let s_name = "s".to_owned();
    proof {
        reveal_strlit("d");
        reveal_strlit("s");
        assert(d_name@ =~= seq!['d']);
        assert(s_name@ =~= seq!['s']);
    }
    let d = find_tag(&tags, &d_name);
    let s = find_tag(&tags, &s_name);
    match (d, s) {
        (Some(d), Some(s)) => Ok((d, s)),
        _ => Err(HostError::MissingTag),
    }
}

/// Chooses, among the values of a message's DKIM-Signature headers in
/// order, the first whose signing domain equals `expected` ignoring case.
pub fn select_signature(expected: &str, values: &Vec<String>) -> (r: Result<Option<SignatureRef>, HostError>)
    ensures
        selection_view(r) == selection(expected@, values@.map_values(|v: String| v@)),
{
    let ghost all = values@.map_values(|v: String| v@);
    let want = lowercase(expected);
    let mut i: usize = 0;
    assert(all.subrange(0, all.len() as int) =~= all);
    while i < values.len()
        invariant
            i <= values@.len(),
            all == values@.map_values(|v: String| v@),
            want@ == lower_of(expected@),
            selection(expected@, all) == selection(expected@, all.subrange(i as int, all.len() as int)),
        decreases values@.len() - i,
    {
        let ghost rest = all.subrange(i as int, all.len() as int);
        assert(rest.drop_first() =~= all.subrange(i + 1, all.len() as int));
        let (d, s) = match signature_of(values[i].as_str()) {
            Ok(ds) => ds,
            Err(e) => return Err(e),
        };
        if lowercase(d.as_str()) == want {
            return Ok(Some(SignatureRef { domain: d, selector: s }));
        }
        i = i + 1;
    }
    Ok(None)
}

/// The chosen signature's domain matches the expected one ignoring case,
/// and every header before it was well formed with a domain that does not
/// match: a mismatching header is never chosen, even when another header
/// of the same message matches.
pub proof fn lemma_selection_skips_other_domains(expected: Seq<char>, values: Seq<Seq<char>>)
    ensures
        selection(expected, values) matches Ok(Some(ds)) ==> exists|i: int|
            0 <= i < values.len() && signature_tags(values[i]) == Ok::<(Seq<char>, Seq<char>), HostError>(ds)
                && domain_matches(expected, ds.0) && forall|j: int|
                0 <= j < i ==> (#[trigger] signature_tags(values[j]) matches Ok(o) && !domain_matches(
                    expected,
                    o.0,
                )),
    decreases values.len(),
{
    if values.len() > 0 {
        if let Ok(ds) = signature_tags(values[0]) {
            if !domain_matches(expected, ds.0) {
                let rest = values.drop_first();
                lemma_selection_skips_other_domains(expected, rest);
                if let Ok(Some(found)) = selection(expected, values) {
                    let k = choose|k: int|
                        0 <= k < rest.len() && signature_tags(rest[k]) == Ok::<(Seq<char>, Seq<char>), HostError>(found)
                            && domain_matches(expected, found.0) && forall|j: int|
                            0 <= j < k ==> (#[trigger] signature_tags(rest[j]) matches Ok(o) && !domain_matches(
                                expected,
                                o.0,
                            ));
                    assert forall|j: int| 0 <= j < k + 1 implies (#[trigger] signature_tags(values[j]) matches Ok(o)
                        && !domain_matches(expected, o.0)) by {
                        if j > 0 {
                            assert(values[j] == rest[j - 1]);
                        }
                    }
                    assert(values[k + 1] == rest[k]);
                }
            }
        }
    }
}

} // verus!
