//! Safe copy: one file is copied only after its source has been checked, and
//! the copy counts only after both sides hash alike.
//!
//! The copy itself is done by the caller. `SafeCopy` tells it what to do
//! next and takes the result of each step.

use crate::json::{JsonProbe, JsonProbeView};
use crate::text::{
    chars_of, concat_text, has_json_extension, path_has_json_extension, quote, quoted, text_result,
    unit_result,
};
use vstd::prelude::*;

verus! {

/// Why a file was not copied.
#[derive(Debug)]
pub enum CopyError {
    /// There is nothing at the source path.
    SourceMissing,
    /// The source has length zero: it is taken to be still on its way.
    SourceEmpty,
    /// The source could not be examined; the text says why.
    Unreadable(String),
    /// The source has the extension `json` and could not be read as text.
    JsonUnreadable(String),
    /// The source has the extension `json` and does not parse.
    InvalidJson(String),
    /// The copy itself failed; the text says why.
    CopyFailed(String),
    /// One of the two files could not be hashed after the copy.
    HashFailed(String),
    /// After the copy the destination does not hash like the source.
    ChecksumMismatch { src_hash: String, dst_hash: String },
    /// The copy was given up before it was through.
    Incomplete,
}

/// What a `CopyError` says, as plain mathematics.
pub ghost enum CopyErrorView {
    SourceMissing,
    SourceEmpty,
    Unreadable(Seq<char>),
    JsonUnreadable(Seq<char>),
    InvalidJson(Seq<char>),
    CopyFailed(Seq<char>),
    HashFailed(Seq<char>),
    ChecksumMismatch { src_hash: Seq<char>, dst_hash: Seq<char> },
    Incomplete,
}

impl View for CopyError {
    type V = CopyErrorView;

    open spec fn view(&self) -> CopyErrorView {
        match self {
            CopyError::SourceMissing => CopyErrorView::SourceMissing,
            CopyError::SourceEmpty => CopyErrorView::SourceEmpty,
            CopyError::Unreadable(why) => CopyErrorView::Unreadable(why@),
            CopyError::JsonUnreadable(why) => CopyErrorView::JsonUnreadable(why@),
            CopyError::InvalidJson(why) => CopyErrorView::InvalidJson(why@),
            CopyError::CopyFailed(why) => CopyErrorView::CopyFailed(why@),
            CopyError::HashFailed(why) => CopyErrorView::HashFailed(why@),
            CopyError::ChecksumMismatch { src_hash, dst_hash } => CopyErrorView::ChecksumMismatch {
                src_hash: src_hash@,
                dst_hash: dst_hash@,
            },
            CopyError::Incomplete => CopyErrorView::Incomplete,
        }
    }
}

impl DeepView for CopyError {
    type V = CopyErrorView;

    open spec fn deep_view(&self) -> CopyErrorView {
        self@
    }
}

impl CopyErrorView {
    /// The error in words, for a copy from `src` to `dst`.
    pub open spec fn message(self, src: Seq<char>, dst: Seq<char>) -> Seq<char> {
        match self {
            CopyErrorView::SourceMissing => "Source does not exist: "@ + quoted(src),
            CopyErrorView::SourceEmpty => "Source file is empty (Dropbox sync in progress?): "@
                + quoted(src),
            CopyErrorView::Unreadable(why) => why,
            CopyErrorView::JsonUnreadable(why) => "Failed to read JSON file: "@ + quoted(src),
            CopyErrorView::InvalidJson(why) => "Invalid JSON in file: "@ + quoted(src),
            CopyErrorView::CopyFailed(why) => "Failed to copy "@ + quoted(src) + " to "@ + quoted(
                dst,
            ),
            CopyErrorView::HashFailed(why) => why,
            CopyErrorView::ChecksumMismatch { src_hash, dst_hash } =>
                "Checksum mismatch after copy: "@ + src_hash + " vs "@ + dst_hash,
            CopyErrorView::Incomplete => "Copy was not completed: "@ + quoted(src),
        }
    }
}

impl CopyError {
    /// The error in words, for a copy from `src` to `dst`.
    pub fn message(&self, src: &str, dst: &str) -> (text: String)
        ensures
            text@ == self@.message(src@, dst@),
    {
        match self {
            CopyError::SourceMissing => concat_text("Source does not exist: ", quote(src).as_str()),
            CopyError::SourceEmpty => concat_text(
                "Source file is empty (Dropbox sync in progress?): ",
                quote(src).as_str(),
            ),
            CopyError::Unreadable(why) => why.clone(),
            CopyError::JsonUnreadable(_) => concat_text(
                "Failed to read JSON file: ",
                quote(src).as_str(),
            ),
            CopyError::InvalidJson(_) => concat_text("Invalid JSON in file: ", quote(src).as_str()),
            CopyError::CopyFailed(_) => {
                let mut text = concat_text("Failed to copy ", quote(src).as_str());
                text.append(" to ");
                text.append(quote(dst).as_str());
                text
            },
            CopyError::HashFailed(why) => why.clone(),
            CopyError::ChecksumMismatch { src_hash, dst_hash } => {
                let mut text = concat_text("Checksum mismatch after copy: ", src_hash.as_str());
                text.append(" vs ");
                text.append(dst_hash.as_str());
                text
            },
            CopyError::Incomplete => concat_text("Copy was not completed: ", quote(src).as_str()),
        }
    }
}

/// What the caller of a safe copy has to do next.
#[derive(Debug, Clone, Copy, PartialEq, Eq, Structural)]
pub enum CopyStage {
    /// Look at the source: is it there, and how long is it?
    Probe,
    /// Read the source as text, so that its JSON can be checked.
    ReadJson,
    /// Create the destination's parent directories and copy the bytes.
    Transfer,
    /// Hash the source and the destination.
    Verify,
    /// Delete the destination: it does not hash like the source.
    Discard,
    /// Nothing: the copy is through, or has failed.
    Done,
}

/// The state of one safe copy.
pub ghost struct SafeCopyView {
    pub src: Seq<char>,
    pub dst: Seq<char>,
    pub stage: CopyStage,
    pub error: Option<CopyErrorView>,
}

impl SafeCopyView {
    /// The copy has failed with `error`.
    pub open spec fn failed(self, error: CopyErrorView) -> Self {
        SafeCopyView { stage: CopyStage::Done, error: Some(error), ..self }
    }

    /// The state after the source was looked at. `found` is `None` where
    /// nothing is there, else its length or the reason why that could not be
    /// had. A missing or empty source fails the copy; a source with the
    /// extension `json` has its content checked next.
    pub open spec fn after_probe(self, found: Option<Result<u64, Seq<char>>>) -> Self {
        if self.stage != CopyStage::Probe {
            self
        } else {
            match found {
                None => self.failed(CopyErrorView::SourceMissing),
                Some(Err(why)) => self.failed(CopyErrorView::Unreadable(why)),
                Some(Ok(len)) => if len == 0 {
                    self.failed(CopyErrorView::SourceEmpty)
                } else if has_json_extension(self.src) {
                    SafeCopyView { stage: CopyStage::ReadJson, ..self }
                } else {
                    SafeCopyView { stage: CopyStage::Transfer, ..self }
                },
            }
        }
    }

    /// The state after the source's JSON was checked. Content that could not
    /// be read or does not parse fails the copy.
    pub open spec fn after_json(self, probe: JsonProbeView) -> Self {
        if self.stage != CopyStage::ReadJson {
            self
        } else {
            match probe {
                JsonProbeView::NotChecked => self,
                JsonProbeView::Unreadable(why) => self.failed(CopyErrorView::JsonUnreadable(why)),
                JsonProbeView::Invalid(why) => self.failed(CopyErrorView::InvalidJson(why)),
                JsonProbeView::Valid => SafeCopyView { stage: CopyStage::Transfer, ..self },
            }
        }
    }

    /// The state after the bytes were copied, or could not be.
    pub open spec fn after_transfer(self, copied: Result<(), Seq<char>>) -> Self {
        if self.stage != CopyStage::Transfer {
            self
        } else {
            match copied {
                Ok(_) => SafeCopyView { stage: CopyStage::Verify, ..self },
                Err(why) => self.failed(CopyErrorView::CopyFailed(why)),
            }
        }
    }

    /// The state after both files were hashed. Equal hashes complete the
    /// copy. Different hashes fail it, and the destination is to be deleted.
    pub open spec fn after_hashes(
        self,
        src_hash: Result<Seq<char>, Seq<char>>,
        dst_hash: Result<Seq<char>, Seq<char>>,
    ) -> Self {
        if self.stage != CopyStage::Verify {
            self
        } else {
            match (src_hash, dst_hash) {
                (Err(why), _) => self.failed(CopyErrorView::HashFailed(why)),
                (Ok(_), Err(why)) => self.failed(CopyErrorView::HashFailed(why)),
                (Ok(s), Ok(d)) => if s == d {
                    SafeCopyView { stage: CopyStage::Done, ..self }
                } else {
                    SafeCopyView {
                        stage: CopyStage::Discard,
                        error: Some(CopyErrorView::ChecksumMismatch { src_hash: s, dst_hash: d }),
                        ..self
                    }
                },
            }
        }
    }

    /// The state after the destination was deleted.
    pub open spec fn after_discard(self) -> Self {
        if self.stage != CopyStage::Discard {
            self
        } else {
            SafeCopyView { stage: CopyStage::Done, ..self }
        }
    }

    /// How the copy ended: well only if it is through and has met no error.
    pub open spec fn outcome(self) -> Result<(), CopyErrorView> {
        if self.stage != CopyStage::Done {
            Err(CopyErrorView::Incomplete)
        } else {
            match self.error {
                Some(error) => Err(error),
                None => Ok(()),
            }
        }
    }
}

/// What was found at a source path, with texts as character sequences.
pub open spec fn found_view(found: Option<Result<u64, String>>) -> Option<Result<u64, Seq<char>>> {
    match found {
        None => None,
        Some(Ok(len)) => Some(Ok(len)),
        Some(Err(why)) => Some(Err(why@)),
    }
}

/// How a copy ended, with texts as character sequences.
pub open spec fn outcome_view(outcome: Result<(), CopyError>) -> Result<(), CopyErrorView> {
    match outcome {
        Ok(_) => Ok(()),
        Err(error) => Err(error@),
    }
}

/// One file on its way from `src` to `dst`.
#[derive(Debug)]
pub struct SafeCopy {
    src: String,
    dst: String,
    stage: CopyStage,
    error: Option<CopyError>,
}

impl View for SafeCopy {
    type V = SafeCopyView;

    closed spec fn view(&self) -> SafeCopyView {
        SafeCopyView {
            src: self.src@,
            dst: self.dst@,
            stage: self.stage,
            error: self.error.deep_view(),
        }
    }
}

impl SafeCopy {
    /// A copy from `src` to `dst` of which nothing has been done yet.
    pub fn new(src: String, dst: String) -> (copy: Self)
        ensures
            copy@ == (SafeCopyView { src: src@, dst: dst@, stage: CopyStage::Probe, error: None }),
    {
        SafeCopy { src, dst, stage: CopyStage::Probe, error: None }
    }

    /// Where to copy from.
    pub fn src(&self) -> (src: &String)
        ensures
            src@ == self@.src,
    {
        &self.src
    }

    /// Where to copy to.
    pub fn dst(&self) -> (dst: &String)
        ensures
            dst@ == self@.dst,
    {
        &self.dst
    }

    /// What is to be done next.
    pub fn stage(&self) -> (stage: CopyStage)
        ensures
            stage == self@.stage,
    {
        self.stage
    }

    /// Ends the copy with `error`.
    fn fail(&mut self, error: CopyError)
        ensures
            final(self)@ == old(self)@.failed(error@),
    {
        self.stage = CopyStage::Done;
        self.error = Some(error);
    }

    /// Takes what was found at the source: `None` where nothing is there,
    /// else its length, or the reason why that could not be had.
    pub fn probed(&mut self, found: Option<Result<u64, String>>)
        ensures
            final(self)@ == old(self)@.after_probe(found_view(found)),
    {
        if self.stage != CopyStage::Probe {
            return ;
        }
        match found {
            None => self.fail(CopyError::SourceMissing),
            Some(Err(why)) => self.fail(CopyError::Unreadable(why)),
            Some(Ok(len)) => {
                if len == 0 {
                    self.fail(CopyError::SourceEmpty);
                } else {
                    let src_chars = chars_of(self.src.as_str());
                    if path_has_json_extension(src_chars.as_slice()) {
                        self.stage = CopyStage::ReadJson;
                    } else {
                        self.stage = CopyStage::Transfer;
                    }
                }
            },
        }
    }

    /// Takes the verdict on the source's JSON.
    pub fn json_checked(&mut self, probe: JsonProbe)
        ensures
            final(self)@ == old(self)@.after_json(probe@),
    {
        if self.stage != CopyStage::ReadJson {
            return ;
        }
        match probe {
            JsonProbe::NotChecked => {},
            JsonProbe::Unreadable(why) => self.fail(CopyError::JsonUnreadable(why)),
            JsonProbe::Invalid(why) => self.fail(CopyError::InvalidJson(why)),
            JsonProbe::Valid => {
                self.stage = CopyStage::Transfer;
            },
        }
    }

    /// Takes the source's content as it was read, or the reason why it could
    /// not be read, and checks its JSON.
    pub fn json_read(&mut self, content: Result<String, String>)
        ensures
            exists|probe: JsonProbeView| final(self)@ == old(self)@.after_json(probe),
            old(self)@.stage == CopyStage::ReadJson ==> final(self)@.stage == (if content is Ok
                && crate::json::json_parses(content->Ok_0@) {
                CopyStage::Transfer
            } else {
                CopyStage::Done
            }),
    {
        let probe = JsonProbe::of_read(content);
        self.json_checked(probe);
    }

    /// Takes the result of copying the bytes.
    pub fn transferred(&mut self, copied: Result<(), String>)
        ensures
            final(self)@ == old(self)@.after_transfer(unit_result(copied)),
    {
        if self.stage != CopyStage::Transfer {
            return ;
        }
        match copied {
            Ok(()) => {
                self.stage = CopyStage::Verify;
            },
            Err(why) => self.fail(CopyError::CopyFailed(why)),
        }
    }

    /// Takes the hashes of the source and of the destination as they are
    /// after the copy, or the reasons why they could not be had.
    pub fn hashed(&mut self, src_hash: Result<String, String>, dst_hash: Result<String, String>)
        ensures
            final(self)@ == old(self)@.after_hashes(text_result(src_hash), text_result(dst_hash)),
    {
        if self.stage != CopyStage::Verify {
            return ;
        }
        match src_hash {
            Err(why) => self.fail(CopyError::HashFailed(why)),
            Ok(s) => match dst_hash {
                Err(why) => self.fail(CopyError::HashFailed(why)),
                Ok(d) => {
                    if s == d {
                        self.stage = CopyStage::Done;
                    } else {
                        self.stage = CopyStage::Discard;
                        self.error = Some(CopyError::ChecksumMismatch { src_hash: s, dst_hash: d });
                    }
                },
            },
        }
    }

    /// Notes that the destination was deleted.
    pub fn discarded(&mut self)
        ensures
            final(self)@ == old(self)@.after_discard(),
    {
        if self.stage == CopyStage::Discard {
            self.stage = CopyStage::Done;
        }
    }

    /// How the copy ended.
    pub fn finish(self) -> (outcome: Result<(), CopyError>)
        ensures
            outcome_view(outcome) == self@.outcome(),
    {
        if self.stage != CopyStage::Done {
            return Err(CopyError::Incomplete);
        }
        match self.error {
            Some(error) => Err(error),
            None => Ok(()),
        }
    }
}

/// A copy whose destination does not hash like its source never succeeds:
/// the destination is to be deleted, and the copy ends with a checksum
/// mismatch.
pub proof fn lemma_mismatch_fails_copy(copy: SafeCopyView, src_hash: Seq<char>, dst_hash: Seq<char>)
    requires
        copy.stage == CopyStage::Verify,
        src_hash != dst_hash,
    ensures
        copy.after_hashes(Ok(src_hash), Ok(dst_hash)).stage == CopyStage::Discard,
        copy.after_hashes(Ok(src_hash), Ok(dst_hash)).after_discard().outcome() == Err::<
            (),
            CopyErrorView,
        >(CopyErrorView::ChecksumMismatch { src_hash, dst_hash }),
{
}

/// A copy ends well only if the bytes were copied and both files hashed
/// alike afterwards.
pub proof fn lemma_success_needs_equal_hashes(
    copy: SafeCopyView,
    src_hash: Result<Seq<char>, Seq<char>>,
    dst_hash: Result<Seq<char>, Seq<char>>,
)
    requires
        copy.stage == CopyStage::Verify,
        copy.error is None,
        copy.after_hashes(src_hash, dst_hash).outcome() is Ok,
    ensures
        src_hash is Ok,
        dst_hash is Ok,
        src_hash->Ok_0 == dst_hash->Ok_0,
{
}

} // verus!
