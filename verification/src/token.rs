use crate::claim_path::find_char;
use crate::claim_path::find_from;
use crate::claim_path::lemma_find_from_bounds;
use crate::text::chars_of;
use crate::text::copy_string;
use crate::verification::VerificationError;
use vstd::prelude::*;

verus! {

/// The two forms of a proof artifact.
#[derive(Clone, Copy, Debug, PartialEq, Eq, Structural)]
pub enum ArtifactKind {
    /// As the issuer signed it.
    Issued,
    /// As a holder presents it.
    Presented,
}

/// The parts of an artifact in its compact form, as a mathematical value.
pub struct FrameView {
    pub kind: ArtifactKind,
    pub issuer_header: Seq<char>,
    pub presentation_header: Option<Seq<char>>,
    pub payloads: Seq<Option<Seq<char>>>,
    pub proof: Seq<char>,
}

/// The parts of an artifact in its compact form, each still encoded. A
/// payload that is not disclosed is `None`.
#[derive(Debug, PartialEq, Eq)]
pub struct Frame {
    pub kind: ArtifactKind,
    pub issuer_header: String,
    pub presentation_header: Option<String>,
    pub payloads: Vec<Option<String>>,
    pub proof: String,
}

impl View for Frame {
    type V = FrameView;

    open spec fn view(&self) -> FrameView {
        FrameView {
            kind: self.kind,
            issuer_header: self.issuer_header@,
            presentation_header: match self.presentation_header {
                Some(header) => Some(header@),
                None => None,
            },
            payloads: Seq::new(
                self.payloads@.len(),
                |i: int|
                    match self.payloads@[i] {
                        Some(payload) => Some(payload@),
                        None => None,
                    },
            ),
            proof: self.proof@,
        }
    }
}

/// The pieces of `s` from position `from` on, cut at every `sep`.
pub open spec fn split_from(s: Seq<char>, sep: char, from: int) -> Seq<Seq<char>>
    decreases s.len() - from,
    when 0 <= from
    via split_from_terminates
{
    let at = find_from(s, sep, from);
    if at >= s.len() {
        seq![s.subrange(from, s.len() as int)]
    } else {
        seq![s.subrange(from, at)] + split_from(s, sep, at + 1)
    }
}

#[via_fn]
proof fn split_from_terminates(s: Seq<char>, sep: char, from: int) {
    lemma_find_from_bounds(s, sep, from);
}

/// The pieces of `s`, cut at every `sep`. A string without `sep` is one
/// piece; two neighbouring separators hold an empty piece between them.
pub open spec fn pieces(s: Seq<char>, sep: char) -> Seq<Seq<char>> {
    split_from(s, sep, 0)
}

/// The value of a character of the URL-safe base64 alphabet, and `None` for
/// any other character.
pub open spec fn sextet(c: char) -> Option<int> {
    if 'A' <= c && c <= 'Z' {
        Some(c as int - 'A' as int)
    } else if 'a' <= c && c <= 'z' {
        Some(c as int - 'a' as int + 26)
    } else if '0' <= c && c <= '9' {
        Some(c as int - '0' as int + 52)
    } else if c == '-' {
        Some(62)
    } else if c == '_' {
        Some(63)
    } else {
        None
    }
}

/// Unpadded URL-safe base64 in canonical form: every character is of the
/// alphabet, the length is that of a whole number of bytes, and the bits of
/// the last character that belong to no byte are zero.
pub open spec fn is_base64url(s: Seq<char>) -> bool {
    &&& forall|i: int| 0 <= i < s.len() ==> sextet(#[trigger] s[i]) is Some
    &&& s.len() % 4 != 1
    &&& s.len() % 4 == 2 ==> sextet(s.last())->Some_0 % 16 == 0
    &&& s.len() % 4 == 3 ==> sextet(s.last())->Some_0 % 4 == 0
}

/// A header: base64 text that is not empty.
pub open spec fn is_header(s: Seq<char>) -> bool {
    s.len() > 0 && is_base64url(s)
}

/// Whether every piece is an encoded payload or empty.
pub open spec fn are_payloads(pieces: Seq<Seq<char>>) -> bool {
    forall|i: int| 0 <= i < pieces.len() ==> (#[trigger] pieces[i]).len() == 0 || is_base64url(pieces[i])
}

/// The payloads that the pieces stand for: an empty piece is a payload that
/// is not disclosed.
pub open spec fn payloads_of(pieces: Seq<Seq<char>>) -> Seq<Option<Seq<char>>> {
    Seq::new(
        pieces.len(),
        |i: int|
            if pieces[i].len() == 0 {
                None
            } else {
                Some(pieces[i])
            },
    )
}

/// The parts of a token in compact form. An issued artifact is
/// `header.payloads.proof`, a presented one
/// `header.header.payloads.proof`; the payloads are separated by `~`.
/// Anything else is no artifact.
pub open spec fn frame_of(token: Seq<char>) -> Option<FrameView> {
    let parts = pieces(token, '.');
    if parts.len() == 3 && is_header(parts[0]) && are_payloads(pieces(parts[1], '~'))
        && is_base64url(parts[2]) {
        Some(
            FrameView {
                kind: ArtifactKind::Issued,
                issuer_header: parts[0],
                presentation_header: None,
                payloads: payloads_of(pieces(parts[1], '~')),
                proof: parts[2],
            },
        )
    } else if parts.len() == 4 && is_header(parts[0]) && is_header(parts[1]) && are_payloads(
        pieces(parts[2], '~'),
    ) && is_base64url(parts[3]) {
        Some(
            FrameView {
                kind: ArtifactKind::Presented,
                issuer_header: parts[0],
                presentation_header: Some(parts[1]),
                payloads: payloads_of(pieces(parts[2], '~')),
                proof: parts[3],
            },
        )
    } else {
        None
    }
}

/// The view of a list of strings.
pub open spec fn texts(strings: Seq<String>) -> Seq<Seq<char>> {
    Seq::new(strings.len(), |i: int| strings[i]@)
}

/// Cuts `text` at every `sep`.
pub fn split_text(text: &str, sep: char) -> (out: Vec<String>)
    ensures
        texts(out@) == pieces(text@, sep),
{
    let chars = chars_of(text);
    let mut out: Vec<String> = Vec::new();
    let mut from: usize = 0;
    assert(texts(out@) + split_from(chars@, sep, 0) =~= pieces(chars@, sep));
    loop
        invariant
            text@ == chars@,
            from <= chars.len(),
            texts(out@) + split_from(chars@, sep, from as int) == pieces(chars@, sep),
        decreases chars.len() - from,
    {
        let at = find_char(&chars, sep, from);
        let ghost before = texts(out@);
        let piece = text.substring_char(from, at).to_owned();
        out.push(piece);
        assert(texts(out@) =~= before + seq![chars@.subrange(from as int, at as int)]);
        if at >= chars.len() {
            return out;
        }
        assert(texts(out@) + split_from(chars@, sep, at + 1) =~= before + split_from(
            chars@,
            sep,
            from as int,
        ));
        from = at + 1;
    }
}

/// The value of a character of the URL-safe base64 alphabet.
fn sextet_of(c: char) -> (out: Option<u8>)
    ensures
        match sextet(c) {
            Some(v) => out == Some(v as u8) && 0 <= v < 64,
            None => out is None,
        },
{
    if c >= 'A' && c <= 'Z' {
        Some((c as u32 - 'A' as u32) as u8)
    } else if c >= 'a' && c <= 'z' {
        Some((c as u32 - 'a' as u32 + 26) as u8)
    } else if c >= '0' && c <= '9' {
        Some((c as u32 - '0' as u32 + 52) as u8)
    } else if c == '-' {
        Some(62)
    } else if c == '_' {
        Some(63)
    } else {
        None
    }
}

/// Whether `text` is unpadded URL-safe base64 in canonical form.
pub fn is_base64url_text(text: &str) -> (yes: bool)
    ensures
        yes == is_base64url(text@),
{
    let chars = chars_of(text);
    let mut last: u8 = 0;
    let mut i: usize = 0;
    while i < chars.len()
        invariant
            i <= chars.len(),
            chars@ == text@,
            forall|j: int| 0 <= j < i ==> sextet(#[trigger] chars@[j]) is Some,
            i > 0 ==> sextet(chars@[i - 1]) == Some(last as int),
        decreases chars.len() - i,
    {
        match sextet_of(chars[i]) {
            Some(v) => {
                last = v;
            },
            None => {
                assert(sextet(text@[i as int]) is None);
                return false;
            },
        }
        i += 1;
    }
    let tail = chars.len() % 4;
    if tail == 1 {
        false
    } else if tail == 2 {
        last % 16 == 0
    } else if tail == 3 {
        last % 4 == 0
    } else {
        true
    }
}

/// Reads the payload section of a token: its pieces between `~`, each a
/// payload or empty. Answers `None` where a piece is neither.
fn read_payloads(section: &str) -> (out: Option<Vec<Option<String>>>)
    ensures
        match out {
            Some(payloads) => are_payloads(pieces(section@, '~')) && Seq::new(
                payloads@.len(),
                |i: int|
                    match payloads@[i] {
                        Some(payload) => Some(payload@),
                        None => None,
                    },
            ) == payloads_of(pieces(section@, '~')),
            None => !are_payloads(pieces(section@, '~')),
        },
{
    let parts = split_text(section, '~');
    let ghost all = pieces(section@, '~');
    let mut payloads: Vec<Option<String>> = Vec::new();
    let mut i: usize = 0;
    while i < parts.len()
        invariant
            i <= parts.len(),
            all == pieces(section@, '~'),
            texts(parts@) == all,
            payloads.len() == i,
            forall|j: int| 0 <= j < i ==> (#[trigger] all[j]).len() == 0 || is_base64url(all[j]),
            forall|j: int|
                0 <= j < i ==> (match #[trigger] payloads@[j] {
                    Some(payload) => Some(payload@),
                    None => None,
                }) == payloads_of(all)[j],
        decreases parts.len() - i,
    {
        let piece = &parts[i];
        assert(piece@ == all[i as int]);
        if piece.as_str().unicode_len() == 0 {
            payloads.push(None);
        } else if is_base64url_text(piece.as_str()) {
            payloads.push(Some(copy_string(piece)));
        } else {
            return None;
        }
        i += 1;
    }
    assert(Seq::new(
        payloads@.len(),
        |i: int|
            match payloads@[i] {
                Some(payload) => Some(payload@),
                None => None,
            },
    ) =~= payloads_of(all));
    Some(payloads)
}

/// Whether `text` is a header: base64 text that is not empty.
fn is_header_text(text: &str) -> (yes: bool)
    ensures
        yes == is_header(text@),
{
    text.unicode_len() > 0 && is_base64url_text(text)
}

/// Takes a token in compact form apart, into its headers, its payloads and
/// its proof, and checks that each part is well-formed base64 text.
///
/// Fails with `MalformedArtifact` where the token has neither three nor four
/// parts, where a header is empty, and where a part is not base64 text.
pub fn frame(token: &str) -> (out: Result<Frame, VerificationError>)
    ensures
        match frame_of(token@) {
            Some(parts) => out matches Ok(f) && f@ == parts,
            None => out == Err::<Frame, VerificationError>(VerificationError::MalformedArtifact),
        },
{
    let mut parts = split_text(token, '.');
    let ghost all = pieces(token@, '.');
    let count = parts.len();
    if count != 3 && count != 4 {
        return Err(VerificationError::MalformedArtifact);
    }
    assert(forall|j: int| 0 <= j < count ==> parts@[j]@ == all[j]);
    let proof = parts.pop().unwrap();
    let section = parts.pop().unwrap();
    let presentation_header = if count == 4 {
        parts.pop()
    } else {
        None
    };
    let issuer_header = parts.pop().unwrap();
    assert(proof@ == all[count - 1]);
    assert(section@ == all[count - 2]);
    assert(issuer_header@ == all[0]);
    if !is_header_text(issuer_header.as_str()) {
        return Err(VerificationError::MalformedArtifact);
    }
    let kind = match &presentation_header {
        Some(header) => {
            assert(header@ == all[1]);
            if !is_header_text(header.as_str()) {
                return Err(VerificationError::MalformedArtifact);
            }
            ArtifactKind::Presented
        },
        None => ArtifactKind::Issued,
    };
    let payloads = match read_payloads(section.as_str()) {
        Some(payloads) => payloads,
        None => {
            return Err(VerificationError::MalformedArtifact);
        },
    };
    if !is_base64url_text(proof.as_str()) {
        return Err(VerificationError::MalformedArtifact);
    }
    let out = Frame { kind, issuer_header, presentation_header, payloads, proof };
    assert(out@.payloads =~= frame_of(token@)->Some_0.payloads);
    Ok(out)
}

} // verus!
