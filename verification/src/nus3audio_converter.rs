//! The conversion of an uploaded audio file into a nus3audio archive:
//! the names of the files involved, the order of the steps, and the
//! archive itself, as the nus3audio crate writes it.

use vstd::prelude::*;
use vstd::string::*;
use vstd::utf8::encode_utf8;

verus! {

/// The directory under which uploads are converted.
pub const WORK_DIRECTORY: &'static str = "/tmp/nus3audio/";

/// The path under which the site serves the archives.
pub const DOWNLOAD_PATH: &'static str = "/nus3audio/files/";

/// The extension of what the converter writes.
pub const LOPUS_EXTENSION: &'static str = ".lopus";

/// The extension of an archive.
pub const ARCHIVE_EXTENSION: &'static str = ".nus3audio";

/// The number of hexadecimal digits of an upload identifier.
pub const ID_WIDTH: usize = 32;

/// The largest sum of the lengths, in bytes, of a name and of the audio
/// data that `pack_lopus` puts into an archive.
pub const ARCHIVE_LIMIT: usize = 0x7fff_ffff;

/// The hexadecimal digit of a value below 16, in lower case.
pub open spec fn hex_char(digit: int) -> char {
    "0123456789abcdef"@[digit]
}

/// The last `width` hexadecimal digits of `value`, in lower case, with
/// leading zeros.
pub open spec fn hex_digits(value: nat, width: nat) -> Seq<char>
    decreases width,
{
    if width == 0 {
        Seq::empty()
    } else {
        hex_digits(value / 16, (width - 1) as nat).push(hex_char((value % 16) as int))
    }
}

/// `hex_digits` writes `width` digits.
pub proof fn lemma_hex_digits_len(value: nat, width: nat)
    ensures
        hex_digits(value, width).len() == width,
    decreases width,
{
    if width > 0 {
        lemma_hex_digits_len(value / 16, (width - 1) as nat);
    }
}

/// Writes `seed` as an upload identifier: 32 hexadecimal digits in lower
/// case, with leading zeros.
pub fn upload_id(seed: u128) -> (id: String)
    ensures
        id@ == hex_digits(seed as nat, ID_WIDTH as nat),
        id@.len() == ID_WIDTH,
{
    proof {
        reveal_strlit("0123456789abcdef");
    }
    let mut id = String::new();
    let mut rest: u128 = seed;
    let mut written: usize = 0;
    assert(hex_digits(rest as nat, ID_WIDTH as nat) + id@ == hex_digits(
        seed as nat,
        ID_WIDTH as nat,
    ));
    while written < ID_WIDTH
        invariant
            written <= ID_WIDTH,
            "0123456789abcdef"@.len() == 16,
            hex_digits(rest as nat, (ID_WIDTH - written) as nat) + id@ == hex_digits(
                seed as nat,
                ID_WIDTH as nat,
            ),
        decreases ID_WIDTH - written,
    {
        let digit = (rest % 16) as usize;
        let text = "0123456789abcdef".substring_char(digit, digit + 1);
        let ghost shorter = hex_digits((rest / 16) as nat, (ID_WIDTH - written - 1) as nat);
        assert(text@ == seq![hex_char(digit as int)]);
        assert(shorter.push(hex_char(digit as int)) + id@ == shorter + (text@ + id@));
        id = String::from_str(text).concat(id.as_str());
        rest = rest / 16;
        written += 1;
    }
    assert(hex_digits(rest as nat, 0) + id@ == id@);
    proof {
        lemma_hex_digits_len(seed as nat, ID_WIDTH as nat);
    }
    id
}

/// Draws a number at random.
///
/// Calls `rand::random` for a `u128`. Nothing is known of the result.
#[verifier::external_body]
pub(crate) fn random_seed() -> (seed: u128) {
    rand::random::<u128>()
}

/// Draws a fresh upload identifier: the 32 hexadecimal digits of a number
/// drawn at random.
pub fn fresh_upload_id() -> (id: String)
    ensures
        exists|seed: u128| id@ == hex_digits(seed as nat, ID_WIDTH as nat),
        id@.len() == ID_WIDTH,
{
    upload_id(random_seed())
}

/// The files that the conversion of one upload touches, and the address
/// of its result.
#[derive(Clone, Debug, PartialEq, Eq)]
pub struct UploadPlan {
    /// The directory of this upload.
    pub directory: String,
    /// Where the uploaded file is stored.
    pub upload_path: String,
    /// Where the converter writes its output.
    pub lopus_path: String,
    /// Where the archive is written.
    pub archive_path: String,
    /// The address under which the site serves the archive.
    pub address: String,
}

/// The model of an `UploadPlan`.
pub struct UploadPlanView {
    pub directory: Seq<char>,
    pub upload_path: Seq<char>,
    pub lopus_path: Seq<char>,
    pub archive_path: Seq<char>,
    pub address: Seq<char>,
}

impl View for UploadPlan {
    type V = UploadPlanView;

    open spec fn view(&self) -> UploadPlanView {
        UploadPlanView {
            directory: self.directory@,
            upload_path: self.upload_path@,
            lopus_path: self.lopus_path@,
            archive_path: self.archive_path@,
            address: self.address@,
        }
    }
}

/// The plan for the upload `id` of a file with the stem `stem` and the
/// extension `extension`: everything lies in the directory of the
/// upload, under the stem.
pub open spec fn planned(id: Seq<char>, stem: Seq<char>, extension: Seq<char>) -> UploadPlanView {
    let directory = WORK_DIRECTORY@ + id;
    let base = directory + seq!['/'] + stem;
    UploadPlanView {
        directory,
        upload_path: base + seq!['.'] + extension,
        lopus_path: base + LOPUS_EXTENSION@,
        archive_path: base + ARCHIVE_EXTENSION@,
        address: DOWNLOAD_PATH@ + id + seq!['/'] + stem + ARCHIVE_EXTENSION@,
    }
}

/// Names the files of the upload `id` of a file with the stem `stem` and
/// the extension `extension`.
pub fn plan_upload(id: &str, stem: &str, extension: &str) -> (plan: UploadPlan)
    ensures
        plan@ == planned(id@, stem@, extension@),
{
    proof {
        reveal_strlit("/");
        reveal_strlit(".");
    }
    assert("/"@ == seq!['/']);
    assert("."@ == seq!['.']);
    let directory = String::from_str(WORK_DIRECTORY).concat(id);
    let base = directory.clone().concat("/").concat(stem);
    let upload_path = base.clone().concat(".").concat(extension);
    let lopus_path = base.clone().concat(LOPUS_EXTENSION);
    let archive_path = base.concat(ARCHIVE_EXTENSION);
    let address = String::from_str(DOWNLOAD_PATH).concat(id).concat("/").concat(stem).concat(
        ARCHIVE_EXTENSION,
    );
    UploadPlan { directory, upload_path, lopus_path, archive_path, address }
}

/// The file that the address of an archive stands for.
pub open spec fn download_path_of(id: Seq<char>, name: Seq<char>) -> Seq<char> {
    WORK_DIRECTORY@ + id + seq!['/'] + name
}

/// Names the file that the site serves for the upload `id` under the
/// name `name`.
pub fn download_path(id: &str, name: &str) -> (path: String)
    ensures
        path@ == download_path_of(id@, name@),
{
    proof {
        reveal_strlit("/");
    }
    assert("/"@ == seq!['/']);
    String::from_str(WORK_DIRECTORY).concat(id).concat("/").concat(name)
}

/// The address of an archive leads to the file that the plan wrote it
/// to.
pub proof fn lemma_address_leads_to_archive(id: Seq<char>, stem: Seq<char>, extension: Seq<char>)
    ensures
        planned(id, stem, extension).archive_path == download_path_of(
            id,
            stem + ARCHIVE_EXTENSION@,
        ),
        planned(id, stem, extension).address == DOWNLOAD_PATH@ + id + seq!['/'] + (stem
            + ARCHIVE_EXTENSION@),
{
    assert(WORK_DIRECTORY@ + id + seq!['/'] + stem + ARCHIVE_EXTENSION@ == WORK_DIRECTORY@ + id
        + seq!['/'] + (stem + ARCHIVE_EXTENSION@));
    assert(DOWNLOAD_PATH@ + id + seq!['/'] + stem + ARCHIVE_EXTENSION@ == DOWNLOAD_PATH@ + id
        + seq!['/'] + (stem + ARCHIVE_EXTENSION@));
}

/// The bytes of the nus3audio archive that holds one audio file with the
/// identifier `id`, the name `name` and the contents `data`, as the
/// nus3audio crate writes it.
pub uninterp spec fn nus3audio_archive(id: u32, name: Seq<char>, data: Seq<u8>) -> Seq<u8>;

/// Whether a name and audio data are small enough for `pack_lopus`.
pub open spec fn fits_archive(name: Seq<char>, data: Seq<u8>) -> bool {
    encode_utf8(name).len() + data.len() <= ARCHIVE_LIMIT
}

/// Writes the archive of one audio file.
///
/// Makes a `nus3audio::Nus3audioFile` that holds one
/// `nus3audio::AudioFile` and calls its `write` on a vector of the size
/// that its `calc_size` gives. The crate computes offsets in 32 bits, so
/// the contract admits only inputs that `fits_archive`. Nothing is
/// proved of the result: the contract only names what the crate writes,
/// as a function of the identifier, the name and the data.
#[verifier::external_body]
pub(crate) fn write_archive(id: u32, name: &str, data: Vec<u8>) -> (bytes: Vec<u8>)
    requires
        fits_archive(name@, data@),
    ensures
        bytes@ == nus3audio_archive(id, name@, data@),
{
    let mut archive = nus3audio::Nus3audioFile::new();
    archive.files.push(nus3audio::AudioFile { id, name: name.to_string(), data });
    let mut bytes = Vec::with_capacity(archive.calc_size());
    archive.write(&mut bytes);
    bytes
}

/// Packs converted audio into an archive of its own, under the
/// identifier 0 and the name `name`. Inputs that do not `fits_archive`
/// are refused.
pub fn pack_lopus(name: &str, data: Vec<u8>) -> (archive: Option<Vec<u8>>)
    ensures
        match archive {
            Some(bytes) => fits_archive(name@, data@) && bytes@ == nus3audio_archive(
                0,
                name@,
                data@,
            ),
            None => !fits_archive(name@, data@),
        },
{
    let name_length = name.as_bytes().len();
    if name_length > ARCHIVE_LIMIT || data.len() > ARCHIVE_LIMIT - name_length {
        return None;
    }
    Some(write_archive(0, name, data))
}

/// The steps of one conversion, in their order, and its two outcomes.
#[derive(Clone, Copy, Debug, PartialEq, Eq, Structural)]
pub enum UploadStep {
    /// Delete what earlier uploads left behind long ago.
    ClearExpired,
    /// Create the directory of this upload.
    CreateDirectory,
    /// Store the uploaded file.
    StoreUpload,
    /// Run the converter on the stored file and print what it reports.
    /// A converter that cannot be started is passed over; the step fails
    /// only where the report is no text.
    Convert,
    /// Read what the converter wrote.
    ReadConverted,
    /// Pack it and write the archive.
    WriteArchive,
    /// Delete what the converter wrote.
    RemoveConverted,
    /// Delete the stored upload.
    RemoveUpload,
    /// The archive is written: the upload is answered with its address.
    Finished,
    /// The upload is answered with nothing.
    Failed,
}

impl UploadStep {
    /// The position of the step in the order of the conversion.
    pub open spec fn rank(self) -> nat {
        match self {
            UploadStep::ClearExpired => 0,
            UploadStep::CreateDirectory => 1,
            UploadStep::StoreUpload => 2,
            UploadStep::Convert => 3,
            UploadStep::ReadConverted => 4,
            UploadStep::WriteArchive => 5,
            UploadStep::RemoveConverted => 6,
            UploadStep::RemoveUpload => 7,
            UploadStep::Finished => 8,
            UploadStep::Failed => 9,
        }
    }

    /// Whether the conversion ends with this step.
    pub open spec fn is_outcome(self) -> bool {
        self == UploadStep::Finished || self == UploadStep::Failed
    }

    /// Whether a failure of the step ends the conversion. Clearing and
    /// the two deletions are attempted and their failure is passed over.
    pub open spec fn is_required(self) -> bool {
        1 <= self.rank() <= 5
    }

    /// What follows the step once it has `succeeded` or not: an outcome
    /// stays, a required step that failed leads to `Failed`, and any
    /// other step leads to the next in rank.
    pub open spec fn successor(self, succeeded: bool) -> UploadStep {
        if self.is_outcome() {
            self
        } else if self.is_required() && !succeeded {
            UploadStep::Failed
        } else {
            choose|next: UploadStep| next.rank() == self.rank() + 1
        }
    }

    /// The step with which a conversion begins.
    pub fn first() -> (step: UploadStep)
        ensures
            step.rank() == 0,
    {
        UploadStep::ClearExpired
    }

    /// Decides what follows the step once it has `succeeded` or not.
    pub fn advance(self, succeeded: bool) -> (next: UploadStep)
        ensures
            next == self.successor(succeeded),
            !self.is_outcome() && next != UploadStep::Failed ==> next.rank() == self.rank() + 1,
    {
        let next = match self {
            UploadStep::ClearExpired => UploadStep::CreateDirectory,
            UploadStep::CreateDirectory => if succeeded {
                UploadStep::StoreUpload
            } else {
                UploadStep::Failed
            },
            UploadStep::StoreUpload => if succeeded {
                UploadStep::Convert
            } else {
                UploadStep::Failed
            },
            UploadStep::Convert => if succeeded {
                UploadStep::ReadConverted
            } else {
                UploadStep::Failed
            },
            UploadStep::ReadConverted => if succeeded {
                UploadStep::WriteArchive
            } else {
                UploadStep::Failed
            },
            UploadStep::WriteArchive => if succeeded {
                UploadStep::RemoveConverted
            } else {
                UploadStep::Failed
            },
            UploadStep::RemoveConverted => UploadStep::RemoveUpload,
            UploadStep::RemoveUpload => UploadStep::Finished,
            UploadStep::Finished => UploadStep::Finished,
            UploadStep::Failed => UploadStep::Failed,
        };
        proof {
            lemma_rank_is_injective(next, self.successor(succeeded));
        }
        next
    }
}

/// No two steps have the same rank.
pub proof fn lemma_rank_is_injective(first: UploadStep, second: UploadStep)
    ensures
        first.rank() == second.rank() ==> first == second,
{
}

/// A conversion finishes only after its required steps: where one of
/// them fails, the outcome is `Failed`, and an outcome never changes.
pub proof fn lemma_upload_outcomes(step: UploadStep, succeeded: bool)
    ensures
        step.is_outcome() ==> step.successor(succeeded) == step,
        step.is_required() && !succeeded ==> step.successor(succeeded) == UploadStep::Failed,
        step.successor(succeeded) == UploadStep::Finished ==> step == UploadStep::Finished || step
            == UploadStep::RemoveUpload,
        !step.is_outcome() && (succeeded || !step.is_required()) ==> step.successor(
            succeeded,
        ).rank() == step.rank() + 1,
{
    if !step.is_outcome() && (succeeded || !step.is_required()) {
        let witness = match step {
            UploadStep::ClearExpired => UploadStep::CreateDirectory,
            UploadStep::CreateDirectory => UploadStep::StoreUpload,
            UploadStep::StoreUpload => UploadStep::Convert,
            UploadStep::Convert => UploadStep::ReadConverted,
            UploadStep::ReadConverted => UploadStep::WriteArchive,
            UploadStep::WriteArchive => UploadStep::RemoveConverted,
            UploadStep::RemoveConverted => UploadStep::RemoveUpload,
            _ => UploadStep::Finished,
        };
        assert(witness.rank() == step.rank() + 1);
    }
}

} // verus!
