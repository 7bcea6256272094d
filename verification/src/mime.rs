//! The trusted boundary to the `mailparse` crate, and the verified
//! extraction of attachment data from a parsed document.
//!
//! Parsing raw message bytes is a pure function of the bytes, so what the
//! parser yields is named by uninterpreted functions keyed on the bytes
//! alone; the parsed document is handed over as plain data, and everything
//! the engine decides about it (which parts are attachments, which are text)
//! is verified code.

use crate::error::Error;
use vstd::prelude::*;
use vstd::string::*;

verus! {

/// One subpart of a parsed mail document, as plain data: whether its
/// content-disposition marks it an attachment, its filename parameter, its
/// (lowercased) mime type, and its decoded body if decoding succeeded.
pub struct MimePart {
    pub attachment: bool,
    pub filename: Option<String>,
    pub mimetype: String,
    pub body: Option<String>,
}

impl View for MimePart {
    type V = (bool, Option<Seq<char>>, Seq<char>, Option<Seq<char>>);

    open spec fn view(&self) -> (bool, Option<Seq<char>>, Seq<char>, Option<Seq<char>>) {
        (self.attachment, self.filename.deep_view(), self.mimetype@, self.body.deep_view())
    }
}

/// A parsed mail document as plain data: its decoded top-level body, if
/// decoding succeeded, and its subparts.
pub struct MimeMail {
    pub body: Option<String>,
    pub parts: Vec<MimePart>,
}

/// Whether `mailparse::parse_mail` accepts these bytes.
pub uninterp spec fn mime_ok(raw: Seq<u8>) -> bool;

/// The decoded top-level body of these bytes, if body decoding succeeds.
pub uninterp spec fn mime_body(raw: Seq<u8>) -> Option<Seq<char>>;

/// The subparts of these bytes, in document order, each as
/// (attachment?, filename, mimetype, decoded body).
pub uninterp spec fn mime_parts(raw: Seq<u8>) -> Seq<
    (bool, Option<Seq<char>>, Seq<char>, Option<Seq<char>>),
>;

/// Relies on `mailparse::parse_mail`, `ParsedMail::get_body`,
/// `ParsedMail::get_content_disposition` and the public `ctype` field: the
/// whole result is a pure function of the raw bytes. Each subpart is handed
/// over one for one; the disposition enum is narrowed to its `Attachment`
/// variant, the `filename` parameter is mailparse's own (lowercased) key in
/// the disposition's parameter map.
#[verifier::external_body]
pub(crate) fn parse_mime(raw: &Vec<u8>) -> (r: Option<MimeMail>)
    ensures
        (r is Some) == mime_ok(raw@),
        r matches Some(m) ==> m.body.deep_view() == mime_body(raw@),
        r matches Some(m) ==> m.parts@.map(|_i: int, p: MimePart| p@) == mime_parts(raw@),
{
    let parsed = match mailparse::parse_mail(raw) {
        Ok(p) => p,
        Err(_) => return None,
    };
    let parts = parsed.subparts.iter().map(|s| MimePart {
        attachment: matches!(
            s.get_content_disposition().disposition,
            mailparse::DispositionType::Attachment
        ),
        filename: s.get_content_disposition().params.get("filename").cloned(),
        mimetype: s.ctype.mimetype.clone(),
        body: s.get_body().ok(),
    }).collect();
    Some(MimeMail { body: parsed.get_body().ok(), parts })
}

/// The filenames of the attachment parts that carry one, in order.
pub open spec fn spec_attachment_names(
    parts: Seq<(bool, Option<Seq<char>>, Seq<char>, Option<Seq<char>>)>,
) -> Seq<Seq<char>>
    decreases parts.len(),
{
    if parts.len() == 0 {
        Seq::empty()
    } else {
        let rest = spec_attachment_names(parts.drop_first());
        match parts[0].1 {
            Some(f) => if parts[0].0 {
                seq![f] + rest
            } else {
                rest
            },
            None => rest,
        }
    }
}

/// Whether a mime type begins with the text family.
pub open spec fn spec_is_text(mt: Seq<char>) -> bool {
    mt.len() >= 4 && mt.subrange(0, 4) == "text"@
}

/// The decoded bodies of the text-typed attachment parts, in order, or a
/// failure if such a part's body could not be decoded.
pub open spec fn spec_attachment_texts(
    parts: Seq<(bool, Option<Seq<char>>, Seq<char>, Option<Seq<char>>)>,
) -> Result<Seq<Seq<char>>, ()>
    decreases parts.len(),
{
    if parts.len() == 0 {
        Ok(Seq::empty())
    } else if parts[0].0 && spec_is_text(parts[0].2) {
        match parts[0].3 {
            None => Err(()),
            Some(b) => match spec_attachment_texts(parts.drop_first()) {
                Ok(rest) => Ok(seq![b] + rest),
                Err(e) => Err(e),
            },
        }
    } else {
        spec_attachment_texts(parts.drop_first())
    }
}

/// The view of a part vector.
pub open spec fn parts_view(parts: Vec<MimePart>) -> Seq<
    (bool, Option<Seq<char>>, Seq<char>, Option<Seq<char>>),
> {
    parts@.map(|_i: int, p: MimePart| p@)
}

/// Whether this mime type begins with `text`.
pub(crate) fn is_text_type(mt: &String) -> (r: bool)
    ensures
        r == spec_is_text(mt@),
{
    proof {
        reveal_strlit("text");
    }
    let n = mt.as_str().unicode_len();
    if n < 4 {
        return false;
    }
    let r = mt.as_str().get_char(0) == 't' && mt.as_str().get_char(1) == 'e'
        && mt.as_str().get_char(2) == 'x' && mt.as_str().get_char(3) == 't';
    proof {
        if r {
            assert(mt@.subrange(0, 4) =~= "text"@);
        } else {
            if mt@.subrange(0, 4) == "text"@ {
                assert(mt@[0] == "text"@[0]) by {
                    assert(mt@.subrange(0, 4)[0] == mt@[0]);
                }
                assert(mt@[1] == "text"@[1]) by {
                    assert(mt@.subrange(0, 4)[1] == mt@[1]);
                }
                assert(mt@[2] == "text"@[2]) by {
                    assert(mt@.subrange(0, 4)[2] == mt@[2]);
                }
                assert(mt@[3] == "text"@[3]) by {
                    assert(mt@.subrange(0, 4)[3] == mt@[3]);
                }
            }
        }
    }
    r
}

/// Collect the filenames of attachment parts, as specified by
/// [`spec_attachment_names`].
pub(crate) fn attachment_names(parts: &Vec<MimePart>) -> (r: Vec<String>)
    ensures
        r.deep_view() == spec_attachment_names(parts_view(*parts)),
{
    let ghost pv = parts_view(*parts);
    let mut out: Vec<String> = Vec::new();
    let mut i: usize = 0;
    proof {
        assert(pv.skip(0) =~= pv);
        assert(out.deep_view() + spec_attachment_names(pv) =~= spec_attachment_names(pv));
    }
    while i < parts.len()
        invariant
            i <= parts@.len(),
            pv == parts_view(*parts),
            pv.len() == parts@.len(),
            spec_attachment_names(pv) == out.deep_view() + spec_attachment_names(
                pv.skip(i as int),
            ),
        decreases parts@.len() - i,
    {
        proof {
            assert(pv.skip(i as int)[0] == pv[i as int]);
            assert(pv.skip(i as int).drop_first() =~= pv.skip(i + 1));
            assert(pv[i as int] == parts@[i as int]@);
        }
        let ghost before = out.deep_view();
        if parts[i].attachment {
            match &parts[i].filename {
                Some(f) => {
                    out.push(f.clone());
                    proof {
                        assert(out.deep_view() =~= before.push(f@));
                        assert(before + (seq![f@] + spec_attachment_names(pv.skip(i + 1)))
                            =~= out.deep_view() + spec_attachment_names(pv.skip(i + 1)));
                    }
                },
                None => {},
            }
        }
        proof {
            assert(spec_attachment_names(pv) == out.deep_view() + spec_attachment_names(
                pv.skip(i + 1),
            ));
        }
        i += 1;
    }
    proof {
        assert(pv.skip(pv.len() as int)
            =~= Seq::<(bool, Option<Seq<char>>, Seq<char>, Option<Seq<char>>)>::empty());
        assert(out.deep_view() + spec_attachment_names(pv.skip(pv.len() as int)) =~= out.deep_view());
    }
    out
}

/// Collect the decoded bodies of text-typed attachment parts, as specified
/// by [`spec_attachment_texts`].
pub(crate) fn attachment_texts(parts: &Vec<MimePart>) -> (r: Result<Vec<String>, Error>)
    ensures
        match spec_attachment_texts(parts_view(*parts)) {
            Ok(s) => r matches Ok(v) && v.deep_view() == s,
            Err(_) => r matches Err(e) && e is MimeParse,
        },
{
    let ghost pv = parts_view(*parts);
    let mut out: Vec<String> = Vec::new();
    let mut i: usize = 0;
    proof {
        assert(pv.skip(0) =~= pv);
        if spec_attachment_texts(pv) is Ok {
            let s0 = spec_attachment_texts(pv)->Ok_0;
            assert(out.deep_view() + s0 =~= s0);
        }
    }
    while i < parts.len()
        invariant
            i <= parts@.len(),
            pv == parts_view(*parts),
            pv.len() == parts@.len(),
            spec_attachment_texts(pv) == (match spec_attachment_texts(pv.skip(i as int)) {
                Ok(rest) => Ok(out.deep_view() + rest),
                Err(e) => Err::<Seq<Seq<char>>, ()>(e),
            }),
        decreases parts@.len() - i,
    {
        proof {
            assert(pv.skip(i as int)[0] == pv[i as int]);
            assert(pv.skip(i as int).drop_first() =~= pv.skip(i + 1));
            assert(pv[i as int] == parts@[i as int]@);
        }
        let ghost before = out.deep_view();
        if parts[i].attachment && is_text_type(&parts[i].mimetype) {
            match &parts[i].body {
                Some(b) => {
                    out.push(b.clone());
                    proof {
                        assert(out.deep_view() =~= before.push(b@));
                        if spec_attachment_texts(pv.skip(i + 1)) is Ok {
                            let rest = spec_attachment_texts(pv.skip(i + 1))->Ok_0;
                            assert(before + (seq![b@] + rest) =~= out.deep_view() + rest);
                        }
                    }
                },
                None => {
                    return Err(Error::MimeParse);
                },
            }
        }
        i += 1;
    }
    proof {
        assert(pv.skip(pv.len() as int)
            =~= Seq::<(bool, Option<Seq<char>>, Seq<char>, Option<Seq<char>>)>::empty());
        assert(out.deep_view() + Seq::<Seq<char>>::empty() =~= out.deep_view());
    }
    Ok(out)
}

} // verus!
