//! Segment Anything 3.1: where the model files lie, what is missing of them, and what goes into
//! and comes out of the model.
//!
//! Three ONNX files are needed, all in one directory:
//!
//! ```text
//!   sam3/
//!     sam3_image_encoder.onnx
//!     sam3_language_encoder.onnx
//!     sam3_decoder.onnx
//! ```

use crate::numbers::Real;
use crate::paths::{join, join_path, user_dir, user_directory};
use crate::text::{
    begins, begins_with, decimal, ends, ends_with, listed, option_view, owned, push_decimal,
    push_signed, push_wide, signed_decimal, views,
};
use vstd::prelude::*;
use vstd::string::*;

verus! {

/// File name of the image encoder.
pub const IMAGE_ENCODER_FILENAME: &'static str = "sam3_image_encoder.onnx";

/// File name of the encoder for text and exemplar prompts.
pub const LANGUAGE_ENCODER_FILENAME: &'static str = "sam3_language_encoder.onnx";

/// File name of the mask decoder.
pub const DECODER_FILENAME: &'static str = "sam3_decoder.onnx";

/// What the names of PyTorch checkpoints begin with.
pub const PT_CHECKPOINT_PREFIX: &'static str = "sam3";

/// The extension of PyTorch checkpoints.
pub const PT_CHECKPOINT_EXTENSION: &'static str = "pt";

/// User-facing name of the model.
pub const DISPLAY_NAME: &'static str = "Segment Anything 3.1 (Meta)";

/// License and size of the model.
pub const LICENSE_SUMMARY: &'static str = "Apache-2.0, ~1 GB install (fp16)";

/// Where the model comes from.
pub const UPSTREAM_URL: &'static str = "https://github.com/facebookresearch/sam3";

/// The tool that exports the model to ONNX.
pub const EXPORTER_PIP_NAME: &'static str = "samexporter";

/// Where the export tool comes from.
pub const EXPORTER_UPSTREAM_URL: &'static str = "https://github.com/vietanhdev/samexporter";

/// Width and height of the picture that the image encoder takes.
pub const SAM_INPUT_SIZE: usize = 1008;

/// The names of the required files, in the order in which missing ones are reported.
pub open spec fn required() -> Seq<Seq<char>> {
    seq![IMAGE_ENCODER_FILENAME@, LANGUAGE_ENCODER_FILENAME@, DECODER_FILENAME@]
}

/// The names of the required files.
pub fn required_files() -> (r: Vec<String>)
    ensures
        views(r@) == required(),
{
    let mut r: Vec<String> = Vec::new();
    r.push(owned(IMAGE_ENCODER_FILENAME));
    r.push(owned(LANGUAGE_ENCODER_FILENAME));
    r.push(owned(DECODER_FILENAME));
    proof {
        assert(views(r@) =~= required());
    }
    r
}

/// A text, unless it is empty.
pub open spec fn non_empty(s: Option<Seq<char>>) -> Option<Seq<char>> {
    match s {
        Some(t) => if t.len() == 0 {
            None
        } else {
            s
        },
        None => None,
    }
}

/// The user's install directory, given the data and home directories from the environment.
pub open spec fn install_dir(data_home: Option<Seq<char>>, home: Option<Seq<char>>) -> Seq<char> {
    join_path(
        user_dir(non_empty(data_home), home, ""@, ".local/share"@),
        "ultimateslice/models/sam3"@,
    )
}

/// The user's install directory.
pub fn model_install_dir(data_home: &Option<String>, home: &Option<String>) -> (r: String)
    ensures
        r@ == install_dir(option_view(*data_home), option_view(*home)),
{
    let base = match data_home {
        Some(d) => if d.as_str().is_empty() {
            None
        } else {
            Some(d.clone())
        },
        None => None,
    };
    join(&user_directory(&base, home, "", ".local/share"), "ultimateslice/models/sam3")
}

/// The directories that are searched, in order: beside the program, below the working directory,
/// in the Flatpak, and the user's install directory.
pub open spec fn search_dirs(
    exe_dir: Option<Seq<char>>,
    data_home: Option<Seq<char>>,
    home: Option<Seq<char>>,
) -> Seq<Seq<char>> {
    let rest = seq![
        "data/models/sam3"@,
        "/app/share/ultimateslice/models/sam3"@,
        install_dir(data_home, home),
    ];
    match exe_dir {
        Some(d) => seq![join_path(d, "data/models/sam3"@)] + rest,
        None => rest,
    }
}

/// The directories that are searched, in order.
pub fn candidate_dirs(exe_dir: &Option<String>, data_home: &Option<String>, home: &Option<String>) -> (r:
    Vec<String>)
    ensures
        views(r@) == search_dirs(option_view(*exe_dir), option_view(*data_home), option_view(*home)),
{
    let mut r: Vec<String> = Vec::new();
    if let Some(d) = exe_dir {
        r.push(join(d, "data/models/sam3"));
    }
    r.push(owned("data/models/sam3"));
    r.push(owned("/app/share/ultimateslice/models/sam3"));
    r.push(model_install_dir(data_home, home));
    proof {
        assert(views(r@) =~= search_dirs(
            option_view(*exe_dir),
            option_view(*data_home),
            option_view(*home),
        ));
    }
    r
}

/// The paths of the three model files.
#[derive(Debug, Clone, PartialEq, Eq)]
pub struct SamModelPaths {
    pub image_encoder: String,
    pub language_encoder: String,
    pub decoder: String,
}

impl SamModelPaths {
    /// The paths of the model files in a directory, whether or not they exist.
    pub fn from_dir(dir: &str) -> (r: SamModelPaths)
        ensures
            r.image_encoder@ == join_path(dir@, IMAGE_ENCODER_FILENAME@),
            r.language_encoder@ == join_path(dir@, LANGUAGE_ENCODER_FILENAME@),
            r.decoder@ == join_path(dir@, DECODER_FILENAME@),
    {
        SamModelPaths {
            image_encoder: join(dir, IMAGE_ENCODER_FILENAME),
            language_encoder: join(dir, LANGUAGE_ENCODER_FILENAME),
            decoder: join(dir, DECODER_FILENAME),
        }
    }

    /// All three paths: image encoder, language encoder, decoder.
    pub fn all_paths(&self) -> (r: Vec<String>)
        ensures
            views(r@) == seq![self.image_encoder@, self.language_encoder@, self.decoder@],
    {
        let mut r: Vec<String> = Vec::new();
        r.push(self.image_encoder.clone());
        r.push(self.language_encoder.clone());
        r.push(self.decoder.clone());
        proof {
            assert(views(r@) =~= seq![
                self.image_encoder@,
                self.language_encoder@,
                self.decoder@,
            ]);
        }
        r
    }
}

/// A directory and the names of the files in it.
#[derive(Debug, Clone)]
pub struct DirectoryListing {
    pub dir: String,
    pub files: Vec<String>,
}

/// Whether a directory has a file of this name.
pub open spec fn has_file(d: DirectoryListing, name: Seq<char>) -> bool {
    views(d.files@).contains(name)
}

/// The required files that a directory lacks, in order.
pub open spec fn lacking(d: DirectoryListing, n: nat) -> Seq<Seq<char>>
    decreases n,
{
    if n == 0 {
        Seq::empty()
    } else {
        let front = lacking(d, (n - 1) as nat);
        if has_file(d, required()[n - 1]) {
            front
        } else {
            front.push(required()[n - 1])
        }
    }
}

/// The required files that a directory lacks.
pub open spec fn missing_in(d: DirectoryListing) -> Seq<Seq<char>> {
    lacking(d, 3)
}

/// The required files that a directory lacks.
pub fn missing_files(d: &DirectoryListing) -> (r: Vec<String>)
    ensures
        views(r@) == missing_in(*d),
        r@.len() <= 3,
{
    let names = required_files();
    let mut r: Vec<String> = Vec::new();
    let mut i: usize = 0;
    proof {
        assert(views(r@) =~= lacking(*d, 0));
        assert(names@.len() == views(names@).len());
    }
    while i < names.len()
        invariant
            i <= names@.len() == 3,
            views(names@) == required(),
            r@.len() <= i,
            views(r@) == lacking(*d, i as nat),
        decreases names.len() - i,
    {
        let ghost before = r@;
        proof {
            assert(views(names@)[i as int] == names@[i as int]@);
        }
        if !listed(&d.files, &names[i]) {
            r.push(names[i].clone());
            proof {
                assert(views(r@) =~= views(before).push(names@[i as int]@));
            }
        }
        i = i + 1;
    }
    r
}

/// The first directory that has all required files.
pub open spec fn complete_dir(dirs: Seq<DirectoryListing>) -> Option<Seq<char>>
    decreases dirs.len(),
{
    if dirs.len() == 0 {
        None
    } else if missing_in(dirs[0]).len() == 0 {
        Some(dirs[0].dir@)
    } else {
        complete_dir(dirs.drop_first())
    }
}

/// The model files of the first directory that has them all.
pub fn find_sam_model_paths(dirs: &Vec<DirectoryListing>) -> (r: Option<SamModelPaths>)
    ensures
        match r {
            Some(p) => complete_dir(dirs@) is Some && ({
                let d = complete_dir(dirs@)->Some_0;
                &&& p.image_encoder@ == join_path(d, IMAGE_ENCODER_FILENAME@)
                &&& p.language_encoder@ == join_path(d, LANGUAGE_ENCODER_FILENAME@)
                &&& p.decoder@ == join_path(d, DECODER_FILENAME@)
            }),
            None => complete_dir(dirs@) is None,
        },
{
    let mut i: usize = 0;
    proof {
        assert(dirs@.subrange(0, dirs@.len() as int) =~= dirs@);
    }
    while i < dirs.len()
        invariant
            i <= dirs@.len(),
            complete_dir(dirs@) == complete_dir(dirs@.subrange(i as int, dirs@.len() as int)),
        decreases dirs.len() - i,
    {
        proof {
            assert(dirs@.subrange(i as int, dirs@.len() as int).drop_first() =~= dirs@.subrange(
                i + 1,
                dirs@.len() as int,
            ));
        }
        let missing = missing_files(&dirs[i]);
        proof {
            assert(views(missing@).len() == missing@.len());
        }
        if missing.len() == 0 {
            return Some(SamModelPaths::from_dir(&dirs[i].dir));
        }
        i = i + 1;
    }
    None
}

/// How far the model is installed.
#[derive(Debug, Clone, PartialEq, Eq)]
pub enum SamInstallStatus {
    /// All files are in one of the directories.
    Installed,
    /// Some directory has some of the files. The missing ones are listed in order.
    Partial { missing: Vec<String> },
    /// A PyTorch checkpoint is there, but no ONNX file.
    PtCheckpointOnly { pt_path: String },
    /// Nothing is there.
    NotInstalled,
}

impl SamInstallStatus {
    /// The status in a few words.
    pub fn short_label(&self) -> (r: String)
        requires
            *self matches SamInstallStatus::Partial { missing } ==> missing@.len() <= 3,
        ensures
            r@ == (match *self {
                SamInstallStatus::Installed => "✓ Installed"@,
                SamInstallStatus::Partial { missing } => "⚠ Partial ("@ + decimal(
                    (3 - missing@.len()) as nat,
                ) + "/"@ + decimal(3) + " files)"@,
                SamInstallStatus::PtCheckpointOnly { .. } =>
                    "⚠ PyTorch checkpoint — needs ONNX export"@,
                SamInstallStatus::NotInstalled => "Not installed"@,
            }),
    {
        match self {
            SamInstallStatus::Installed => owned("✓ Installed"),
            SamInstallStatus::Partial { missing } => {
                let mut r = owned("⚠ Partial (");
                push_decimal(&mut r, (3 - missing.len()) as u64);
                r.append("/");
                push_decimal(&mut r, 3);
                r.append(" files)");
                r
            },
            SamInstallStatus::PtCheckpointOnly { .. } => owned(
                "⚠ PyTorch checkpoint — needs ONNX export",
            ),
            SamInstallStatus::NotInstalled => owned("Not installed"),
        }
    }

    /// Whether the model can be loaded.
    pub fn is_ready(&self) -> (r: bool)
        ensures
            r == (*self is Installed),
    {
        match self {
            SamInstallStatus::Installed => true,
            _ => false,
        }
    }
}

/// Whether a file is a PyTorch checkpoint of the model, by its name.
pub open spec fn is_checkpoint(name: Seq<char>) -> bool {
    begins(name, PT_CHECKPOINT_PREFIX@) && ends(name, ".pt"@)
}

/// The first checkpoint among files of a directory.
pub open spec fn checkpoint_in(dir: Seq<char>, files: Seq<Seq<char>>) -> Option<Seq<char>>
    decreases files.len(),
{
    if files.len() == 0 {
        None
    } else if is_checkpoint(files[0]) {
        Some(join_path(dir, files[0]))
    } else {
        checkpoint_in(dir, files.drop_first())
    }
}

/// The first PyTorch checkpoint in a directory, in the order of its listing.
pub fn find_pt_checkpoint_in(d: &DirectoryListing) -> (r: Option<String>)
    ensures
        option_view(r) == checkpoint_in(d.dir@, views(d.files@)),
{
    let ghost all = views(d.files@);
    let mut i: usize = 0;
    proof {
        assert(all.subrange(0, all.len() as int) =~= all);
    }
    while i < d.files.len()
        invariant
            i <= d.files@.len(),
            all == views(d.files@),
            checkpoint_in(d.dir@, all) == checkpoint_in(
                d.dir@,
                all.subrange(i as int, all.len() as int),
            ),
        decreases d.files.len() - i,
    {
        proof {
            let rest = all.subrange(i as int, all.len() as int);
            assert(rest[0] == d.files@[i as int]@);
            assert(rest.drop_first() =~= all.subrange(i + 1, all.len() as int));
        }
        if begins_with(&d.files[i], PT_CHECKPOINT_PREFIX) && ends_with(&d.files[i], ".pt") {
            return Some(join(&d.dir, &d.files[i]));
        }
        i = i + 1;
    }
    None
}

/// The fewest files that one of the directories lacks while it has some, and which.
pub open spec fn best_partial(dirs: Seq<DirectoryListing>) -> Option<Seq<Seq<char>>>
    decreases dirs.len(),
{
    if dirs.len() == 0 {
        None
    } else {
        let front = best_partial(dirs.drop_last());
        let m = missing_in(dirs.last());
        if 0 < m.len() < 3 && (front is None || m.len() < front->Some_0.len()) {
            Some(m)
        } else {
            front
        }
    }
}

/// The first checkpoint in any of the directories.
pub open spec fn first_checkpoint(dirs: Seq<DirectoryListing>) -> Option<Seq<char>>
    decreases dirs.len(),
{
    if dirs.len() == 0 {
        None
    } else {
        match first_checkpoint(dirs.drop_last()) {
            Some(p) => Some(p),
            None => checkpoint_in(dirs.last().dir@, views(dirs.last().files@)),
        }
    }
}

/// Whether a status is the right one for what the directories hold. A complete directory counts
/// most, then the one with the most files, then a checkpoint.
pub open spec fn is_status(dirs: Seq<DirectoryListing>, s: SamInstallStatus) -> bool {
    match s {
        SamInstallStatus::Installed => complete_dir(dirs) is Some,
        SamInstallStatus::Partial { missing } => {
            &&& complete_dir(dirs) is None
            &&& best_partial(dirs) == Some(views(missing@))
            &&& missing@.len() <= 3
        },
        SamInstallStatus::PtCheckpointOnly { pt_path } => {
            &&& complete_dir(dirs) is None
            &&& best_partial(dirs) is None
            &&& first_checkpoint(dirs) == Some(pt_path@)
        },
        SamInstallStatus::NotInstalled => {
            &&& complete_dir(dirs) is None
            &&& best_partial(dirs) is None
            &&& first_checkpoint(dirs) is None
        },
    }
}

proof fn lemma_complete(dirs: Seq<DirectoryListing>, i: int)
    requires
        0 <= i <= dirs.len(),
        forall|k: int| 0 <= k < i ==> missing_in(#[trigger] dirs[k]).len() > 0,
        i < dirs.len() ==> missing_in(dirs[i]).len() == 0,
    ensures
        complete_dir(dirs) is Some <==> i < dirs.len(),
    decreases dirs.len(),
{
    if dirs.len() > 0 && i > 0 {
        assert(missing_in(dirs[0]).len() > 0);
        let rest = dirs.drop_first();
        assert forall|k: int| 0 <= k < i - 1 implies missing_in(#[trigger] rest[k]).len() > 0 by {
            assert(rest[k] == dirs[k + 1]);
        }
        lemma_complete(rest, i - 1);
    }
}

/// How far the model is installed, from what the searched directories hold.
pub fn install_status(dirs: &Vec<DirectoryListing>) -> (r: SamInstallStatus)
    ensures
        is_status(dirs@, r),
{
    let mut partial: Option<Vec<String>> = None;
    let mut checkpoint: Option<String> = None;
    let mut i: usize = 0;
    proof {
        assert(dirs@.subrange(0, 0) =~= Seq::empty());
    }
    while i < dirs.len()
        invariant
            i <= dirs@.len(),
            forall|k: int| 0 <= k < i ==> missing_in(#[trigger] dirs@[k]).len() > 0,
            best_partial(dirs@.subrange(0, i as int)) == (match partial {
                Some(m) => Some(views(m@)),
                None => None,
            }),
            partial matches Some(m) ==> m@.len() <= 3,
            first_checkpoint(dirs@.subrange(0, i as int)) == option_view(checkpoint),
        decreases dirs.len() - i,
    {
        let missing = missing_files(&dirs[i]);
        proof {
            let next = dirs@.subrange(0, i + 1);
            assert(next.drop_last() =~= dirs@.subrange(0, i as int));
            assert(next.last() == dirs@[i as int]);
            assert(views(missing@).len() == missing@.len());
        }
        if missing.len() == 0 {
            proof {
                lemma_complete(dirs@, i as int);
            }
            return SamInstallStatus::Installed;
        }
        if missing.len() < 3 {
            let better: bool = match &partial {
                Some(m) => {
                    proof {
                        assert(views(m@).len() == m@.len());
                    }
                    missing.len() < m.len()
                },
                None => true,
            };
            if better {
                partial = Some(missing);
            }
        }
        if checkpoint.is_none() {
            checkpoint = find_pt_checkpoint_in(&dirs[i]);
        }
        i = i + 1;
    }
    proof {
        assert(dirs@.subrange(0, i as int) =~= dirs@);
        lemma_complete(dirs@, i as int);
    }
    if let Some(missing) = partial {
        return SamInstallStatus::Partial { missing };
    }
    if let Some(pt_path) = checkpoint {
        return SamInstallStatus::PtCheckpointOnly { pt_path };
    }
    SamInstallStatus::NotInstalled
}

// ------------------------------------------------------------------ inference
/// A box around what is to be cut out, in pixels of the source.
#[derive(Debug, Clone, Copy, PartialEq, Eq, Structural)]
pub struct BoxPrompt {
    pub x1: Real,
    pub y1: Real,
    pub x2: Real,
    pub y2: Real,
}

/// The largest coordinates of a picture.
#[derive(Debug, Clone, Copy, PartialEq, Eq, Structural)]
pub struct LastPixel {
    pub x: Real,
    pub y: Real,
}

impl BoxPrompt {
    /// The box with two corners, in whichever order they come.
    pub fn from_corners(ax: Real, ay: Real, bx: Real, by: Real) -> (r: BoxPrompt)
        ensures
            r == (BoxPrompt {
                x1: ax.smaller(bx),
                y1: ay.smaller(by),
                x2: ax.larger(bx),
                y2: ay.larger(by),
            }),
    {
        BoxPrompt { x1: ax.min(bx), y1: ay.min(by), x2: ax.max(bx), y2: ay.max(by) }
    }

    /// The box with its corners in order.
    pub open spec fn ordered(self) -> BoxPrompt {
        BoxPrompt {
            x1: self.x1.smaller(self.x2),
            y1: self.y1.smaller(self.y2),
            x2: self.x1.larger(self.x2),
            y2: self.y1.larger(self.y2),
        }
    }

    /// The box moved into a picture.
    pub open spec fn clamped(self, last: LastPixel) -> BoxPrompt {
        let zero = Real { bits: 0 };
        BoxPrompt {
            x1: self.x1.within(zero, last.x),
            y1: self.y1.within(zero, last.y),
            x2: self.x2.within(zero, last.x),
            y2: self.y2.within(zero, last.y),
        }
    }

    /// The box with each corner moved into the picture.
    pub fn clamp_to_source(self, last: LastPixel) -> (r: BoxPrompt)
        ensures
            r == self.clamped(last),
    {
        let zero = Real::zero();
        BoxPrompt {
            x1: self.x1.clamp(zero, last.x),
            y1: self.y1.clamp(zero, last.y),
            x2: self.x2.clamp(zero, last.x),
            y2: self.y2.clamp(zero, last.y),
        }
    }

    /// Whether nothing lies in the box.
    pub open spec fn has_no_area(self) -> bool {
        self.x2.is_at_most(self.x1) || self.y2.is_at_most(self.y1)
    }
}

/// The corners of a box are in order.
pub proof fn lemma_corners_in_order(ax: Real, ay: Real, bx: Real, by: Real)
    requires
        ax.is_number(),
        ay.is_number(),
        bx.is_number(),
        by.is_number(),
    ensures
        ax.smaller(bx).is_at_most(ax.larger(bx)),
        ay.smaller(by).is_at_most(ay.larger(by)),
{
}

/// A box that was moved into a picture stays where it is when it is moved again.
pub proof fn lemma_clamped_box_stays(p: BoxPrompt, last: LastPixel)
    requires
        (Real { bits: 0 }).is_at_most(last.x),
        (Real { bits: 0 }).is_at_most(last.y),
    ensures
        p.clamped(last).clamped(last) == p.clamped(last),
{
}

/// A box is the same whichever of its corners comes first, where their coordinates are distinct
/// numbers.
pub proof fn lemma_either_corner_first(p: BoxPrompt)
    requires
        p.x1.is_less(p.x2) || p.x2.is_less(p.x1),
        p.y1.is_less(p.y2) || p.y2.is_less(p.y1),
    ensures
        (BoxPrompt { x1: p.x2, y1: p.y2, x2: p.x1, y2: p.y1 }).ordered() == p.ordered(),
        p.ordered().x1.is_less(p.ordered().x2),
        p.ordered().y1.is_less(p.ordered().y2),
{
}

/// What is said of a box that holds nothing of the picture.
pub open spec fn no_area() -> Seq<char> {
    "segment_with_box: prompt box has zero area after clamping"@
}

/// The box with its corners in order and moved into the picture, or why it cannot be used.
pub fn check_prompt(prompt: BoxPrompt, last: LastPixel) -> (r: Result<BoxPrompt, String>)
    ensures
        match r {
            Ok(p) => p == prompt.ordered().clamped(last) && !p.has_no_area(),
            Err(e) => prompt.ordered().clamped(last).has_no_area() && e@ == no_area(),
        },
{
    let p = BoxPrompt::from_corners(prompt.x1, prompt.y1, prompt.x2, prompt.y2).clamp_to_source(
        last,
    );
    if p.x2.at_most(p.x1) || p.y2.at_most(p.y1) {
        return Err(owned("segment_with_box: prompt box has zero area after clamping"));
    }
    Ok(p)
}

/// What is wrong with the size of an RGB picture.
pub open spec fn frame_error(rgb_len: usize, src_w: usize, src_h: usize) -> Option<Seq<char>> {
    if src_w == 0 || src_h == 0 {
        Some("segment_with_box: source dimensions must be non-zero"@)
    } else if rgb_len != src_w * src_h * 3 {
        Some(
            "segment_with_box: rgb length "@ + decimal(rgb_len as nat) + " does not match "@
                + decimal(src_w as nat) + "x"@ + decimal(src_h as nat) + "x3 ("@ + decimal(
                (src_w * src_h * 3) as nat,
            ) + ")"@,
        )
    } else {
        None
    }
}

/// Checks the size of an RGB picture.
pub fn check_frame(rgb_len: usize, src_w: usize, src_h: usize) -> (r: Result<(), String>)
    ensures
        match r {
            Ok(_) => frame_error(rgb_len, src_w, src_h) is None,
            Err(e) => frame_error(rgb_len, src_w, src_h) == Some(e@),
        },
{
    if src_w == 0 || src_h == 0 {
        return Err(owned("segment_with_box: source dimensions must be non-zero"));
    }
    proof {
        assert(src_w * src_h <= 0xffff_ffff_ffff_ffff * 0xffff_ffff_ffff_ffff) by (nonlinear_arith)
            requires
                src_w <= 0xffff_ffff_ffff_ffff,
                src_h <= 0xffff_ffff_ffff_ffff,
        ;
    }
    let area: u128 = src_w as u128 * src_h as u128;
    let matches_len: bool = rgb_len % 3 == 0 && area == (rgb_len / 3) as u128;
    if matches_len {
        return Ok(());
    }
    let mut e = owned("segment_with_box: rgb length ");
    push_decimal(&mut e, rgb_len as u64);
    e.append(" does not match ");
    push_decimal(&mut e, src_w as u64);
    e.append("x");
    push_decimal(&mut e, src_h as u64);
    e.append("x3 (");
    push_triple(&mut e, area);
    e.append(")");
    Err(e)
}

/// The box that the model is asked about, or why it is not asked: the picture has the wrong size, or
/// nothing of it lies in the box.
pub open spec fn asked_box(
    rgb_len: usize,
    src_w: usize,
    src_h: usize,
    prompt: BoxPrompt,
    last: LastPixel,
) -> Result<BoxPrompt, Seq<char>> {
    let p = prompt.ordered().clamped(last);
    match frame_error(rgb_len, src_w, src_h) {
        Some(e) => Err(e),
        None => if p.has_no_area() {
            Err(no_area())
        } else {
            Ok(p)
        },
    }
}

/// The box that the model is asked about, or why it is not asked.
pub fn begin_segment(
    rgb_len: usize,
    src_w: usize,
    src_h: usize,
    prompt: BoxPrompt,
    last: LastPixel,
) -> (r: Result<BoxPrompt, String>)
    ensures
        match r {
            Ok(p) => asked_box(rgb_len, src_w, src_h, prompt, last) == Ok::<BoxPrompt, Seq<char>>(p),
            Err(e) => asked_box(rgb_len, src_w, src_h, prompt, last) == Err::<BoxPrompt, Seq<char>>(
                e@,
            ),
        },
{
    match check_frame(rgb_len, src_w, src_h) {
        Ok(_) => check_prompt(prompt, last),
        Err(e) => Err(e),
    }
}

/// Appends three times `n` in decimal.
fn push_triple(s: &mut String, n: u128)
    ensures
        final(s)@ == old(s)@ + decimal((n * 3) as nat),
{
    let ghost before = s@;
    // Three times the last digit carries at most 2 into the digits before it.
    push_scaled(s, n, 0);
    proof {
        assert(n * 3 + 0 == n * 3);
    }
}

/// Appends three times `n` plus `carry` in decimal.
fn push_scaled(s: &mut String, n: u128, carry: u128)
    requires
        carry <= 2,
    ensures
        final(s)@ == old(s)@ + decimal((n * 3 + carry) as nat),
    decreases n,
{
    if n < 0x1000_0000_0000_0000_0000_0000_0000_0000 {
        push_wide(s, n * 3 + carry);
    } else {
        let ghost before = s@;
        let low: u128 = (n % 10) * 3 + carry;
        push_scaled(s, n / 10, low / 10);
        s.push(crate::text::digit((low % 10) as u64));
        proof {
            let v = (n * 3 + carry) as nat;
            let q = (n / 10) as int;
            assert(n == q * 10 + n % 10);
            assert(v == (q * 3) * 10 + low);
            assert(v / 10 == q * 3 + low / 10);
            assert(v % 10 == low % 10);
            assert(s@ =~= before + decimal(v));
        }
    }
}

/// The colour channel `c` at row `y` and column `x` of the encoder's input: the picture sampled
/// at the given rows and columns, black outside.
pub open spec fn encoder_pixel(
    rgb: Seq<u8>,
    src_w: nat,
    src_h: nat,
    rows: Seq<usize>,
    cols: Seq<usize>,
    c: int,
    y: int,
    x: int,
) -> u8 {
    if y < rows.len() && x < cols.len() {
        let sy = at_most(rows[y] as int, src_h - 1);
        let sx = at_most(cols[x] as int, src_w - 1);
        rgb[(sy * src_w + sx) * 3 + c]
    } else {
        0
    }
}

/// `a`, or `b` where that is less.
pub open spec fn at_most(a: int, b: int) -> int {
    if a <= b {
        a
    } else {
        b
    }
}

/// The encoder's input, channel by channel.
pub open spec fn encoder_input(
    rgb: Seq<u8>,
    src_w: nat,
    src_h: nat,
    rows: Seq<usize>,
    cols: Seq<usize>,
) -> Seq<u8> {
    Seq::new(
        3 * 1008 * 1008,
        |i: int|
            encoder_pixel(
                rgb,
                src_w,
                src_h,
                rows,
                cols,
                i / 1_016_064,
                i / 1008 % 1008,
                i % 1008,
            ),
    )
}

/// Rearranges an RGB picture into the encoder's input: three planes of 1008 by 1008, the picture
/// sampled at source rows `rows` and columns `cols`, black below and to the right of it.
pub fn preprocess_image_for_sam(
    rgb: &Vec<u8>,
    src_w: usize,
    src_h: usize,
    rows: &Vec<usize>,
    cols: &Vec<usize>,
) -> (r: Vec<u8>)
    requires
        src_w > 0,
        src_h > 0,
        rgb@.len() == src_w * src_h * 3,
        rows@.len() <= 1008,
        cols@.len() <= 1008,
    ensures
        r@ == encoder_input(rgb@, src_w as nat, src_h as nat, rows@, cols@),
{
    let mut r: Vec<u8> = Vec::new();
    let total: usize = 3_048_192;
    let mut i: usize = 0;
    let ghost n = rgb.len();
    while i < total
        invariant
            i <= total == 3 * 1008 * 1008,
            src_w > 0,
            src_h > 0,
            rgb@.len() == src_w * src_h * 3,
            n == rgb.len(),
            rows@.len() <= 1008,
            cols@.len() <= 1008,
            r@.len() == i,
            forall|k: int|
                0 <= k < i ==> #[trigger] r@[k] == encoder_input(
                    rgb@,
                    src_w as nat,
                    src_h as nat,
                    rows@,
                    cols@,
                )[k],
        decreases total - i,
    {
        let c: usize = i / 1_016_064;
        let y: usize = i / 1008 % 1008;
        let x: usize = i % 1008;
        if y < rows.len() && x < cols.len() {
            let sy: usize = if rows[y] <= src_h - 1 {
                rows[y]
            } else {
                src_h - 1
            };
            let sx: usize = if cols[x] <= src_w - 1 {
                cols[x]
            } else {
                src_w - 1
            };
            proof {
                assert(c <= 2);
                assert(sy * src_w + sx + 1 <= src_w * src_h) by (nonlinear_arith)
                    requires
                        sy + 1 <= src_h,
                        sx + 1 <= src_w,
                ;
                assert(sy * src_w >= 0) by (nonlinear_arith)
                    requires
                        sy >= 0,
                        src_w >= 0,
                ;
                assert(src_w * src_h * 3 <= usize::MAX);
            }
            r.push(rgb[(sy * src_w + sx) * 3 + c]);
        } else {
            r.push(0);
        }
        i = i + 1;
    }
    proof {
        assert(r@ =~= encoder_input(rgb@, src_w as nat, src_h as nat, rows@, cols@));
    }
    r
}

/// The bit pattern of minus infinity.
pub const LOWEST_BITS: u64 = 0xfff0_0000_0000_0000;

/// The place and the value of the largest score, the first where several are equal. Scores that are
/// no numbers do not count; where none does, the first place and minus infinity.
pub open spec fn best_score(scores: Seq<Real>) -> (int, Real)
    decreases scores.len(),
{
    if scores.len() == 0 {
        (0, Real { bits: LOWEST_BITS })
    } else {
        let best = best_score(scores.drop_last());
        if best.1.is_less(scores.last()) {
            (scores.len() - 1, scores.last())
        } else {
            best
        }
    }
}

/// The place and the value of the largest score.
pub fn best_score_index(scores: &Vec<Real>) -> (r: (usize, Real))
    requires
        scores@.len() > 0,
    ensures
        r.0 == best_score(scores@).0,
        r.1 == best_score(scores@).1,
        r.0 < scores@.len(),
{
    let mut best: usize = 0;
    let mut value = Real { bits: LOWEST_BITS };
    let mut i: usize = 0;
    proof {
        assert(scores@.subrange(0, 0) =~= Seq::empty());
    }
    while i < scores.len()
        invariant
            i <= scores@.len(),
            scores@.len() > 0,
            best < scores@.len(),
            best == best_score(scores@.subrange(0, i as int)).0,
            value == best_score(scores@.subrange(0, i as int)).1,
        decreases scores.len() - i,
    {
        proof {
            let next = scores@.subrange(0, i + 1);
            assert(next.drop_last() =~= scores@.subrange(0, i as int));
        }
        if value.less(scores[i]) {
            best = i;
            value = scores[i];
        }
        i = i + 1;
    }
    proof {
        assert(scores@.subrange(0, i as int) =~= scores@);
    }
    (best, value)
}

/// No score is larger than the best.
pub proof fn lemma_best_score(scores: Seq<Real>, i: int)
    requires
        0 <= i < scores.len(),
    ensures
        !best_score(scores).1.is_less(scores[i]),
        best_score(scores).1.is_number(),
    decreases scores.len(),
{
    lemma_score_is_number(scores);
    if i < scores.len() - 1 {
        lemma_best_score(scores.drop_last(), i);
        assert(scores.drop_last()[i] == scores[i]);
    }
}

proof fn lemma_score_is_number(scores: Seq<Real>)
    ensures
        best_score(scores).1.is_number(),
    decreases scores.len(),
{
    if scores.len() > 0 {
        lemma_score_is_number(scores.drop_last());
    }
}

/// The number of masks and their height and width, from the shape of the decoder's output:
/// `[n, h, w]`, `[n, h, w, 1]`, `[n, 1, h, w]` or `[1, n, h, w]`.
pub open spec fn mask_dims(shape: Seq<i64>) -> Option<(usize, usize, usize)> {
    if shape.len() == 3 {
        Some((shape[0] as usize, shape[1] as usize, shape[2] as usize))
    } else if shape.len() == 4 {
        if shape[3] as usize == 1 {
            Some((shape[0] as usize, shape[1] as usize, shape[2] as usize))
        } else if shape[1] as usize == 1 {
            Some((shape[0] as usize, shape[2] as usize, shape[3] as usize))
        } else if shape[0] as usize == 1 {
            Some((shape[1] as usize, shape[2] as usize, shape[3] as usize))
        } else {
            None
        }
    } else {
        None
    }
}

/// The first `n` numbers of a shape with commas between them.
pub open spec fn shape_text(shape: Seq<i64>, n: nat) -> Seq<char>
    decreases n,
{
    if n == 0 {
        Seq::empty()
    } else if n == 1 {
        signed_decimal(shape[0] as int)
    } else {
        shape_text(shape, (n - 1) as nat) + ", "@ + signed_decimal(shape[n - 1] as int)
    }
}

/// Reads the shape of the decoder's output.
pub fn interpret_mask_shape(shape: &Vec<i64>) -> (r: Result<(usize, usize, usize), String>)
    ensures
        match r {
            Ok(d) => mask_dims(shape@) == Some(d),
            Err(e) => mask_dims(shape@) is None && e@ == "unsupported masks rank/shape: ["@
                + shape_text(shape@, shape@.len()) + "]"@,
        },
{
    if shape.len() == 3 {
        return Ok((shape[0] as usize, shape[1] as usize, shape[2] as usize));
    }
    if shape.len() == 4 {
        if shape[3] as usize == 1 {
            return Ok((shape[0] as usize, shape[1] as usize, shape[2] as usize));
        }
        if shape[1] as usize == 1 {
            return Ok((shape[0] as usize, shape[2] as usize, shape[3] as usize));
        }
        if shape[0] as usize == 1 {
            return Ok((shape[1] as usize, shape[2] as usize, shape[3] as usize));
        }
    }
    let mut e = owned("unsupported masks rank/shape: [");
    let ghost head = e@;
    let mut i: usize = 0;
    proof {
        assert(e@ =~= head + shape_text(shape@, 0));
    }
    while i < shape.len()
        invariant
            i <= shape@.len(),
            e@ == head + shape_text(shape@, i as nat),
        decreases shape.len() - i,
    {
        if i > 0 {
            e.append(", ");
        }
        push_signed(&mut e, shape[i]);
        proof {
            assert(e@ =~= head + shape_text(shape@, (i + 1) as nat));
        }
        i = i + 1;
    }
    e.append("]");
    Err(e)
}

/// Where the chosen mask lies in the decoder's output.
#[derive(Debug, Clone, Copy, PartialEq, Eq, Structural)]
pub struct MaskRegion {
    pub start: usize,
    pub height: usize,
    pub width: usize,
}

/// Where the mask at `index` lies in an output of `len` values with the given dimensions, or why it
/// is not there.
pub open spec fn mask_at(dims: (usize, usize, usize), index: usize, len: usize) -> Result<
    MaskRegion,
    Seq<char>,
> {
    let size = dims.1 * dims.2;
    let end = index * size + size;
    if index >= dims.0 {
        Err(
            "best score index "@ + decimal(index as nat) + " out of range for "@ + decimal(
                dims.0 as nat,
            ) + " masks"@,
        )
    } else if end <= len {
        Ok(MaskRegion { start: (index * size) as usize, height: dims.1, width: dims.2 })
    } else if end <= u128::MAX {
        Err(
            "masks tensor truncated: expected at least "@ + decimal(end as nat) + " elements, got "@
                + decimal(len as nat),
        )
    } else {
        Err("masks tensor truncated: got "@ + decimal(len as nat))
    }
}

/// Finds the mask at `index` in an output of `len` values with the given dimensions.
pub fn locate_mask(dims: (usize, usize, usize), index: usize, len: usize) -> (r: Result<
    MaskRegion,
    String,
>)
    ensures
        match r {
            Ok(m) => mask_at(dims, index, len) == Ok::<MaskRegion, Seq<char>>(m),
            Err(e) => mask_at(dims, index, len) == Err::<MaskRegion, Seq<char>>(e@),
        },
        r matches Ok(m) ==> m.start + m.height * m.width <= len,
{
    if index >= dims.0 {
        let mut e = owned("best score index ");
        push_decimal(&mut e, index as u64);
        e.append(" out of range for ");
        push_decimal(&mut e, dims.0 as u64);
        e.append(" masks");
        return Err(e);
    }
    let ghost size_int = dims.1 * dims.2;
    proof {
        assert(0 <= dims.1 * dims.2 <= 0xffff_ffff_ffff_ffff * 0xffff_ffff_ffff_ffff) by (
            nonlinear_arith)
            requires
                0 <= dims.1 <= 0xffff_ffff_ffff_ffff,
                0 <= dims.2 <= 0xffff_ffff_ffff_ffff,
        ;
    }
    let size: u128 = dims.1 as u128 * dims.2 as u128;
    proof {
        assert(index * size + size == (index + 1) * size) by (nonlinear_arith);
        assert(index * size >= 0) by (nonlinear_arith)
            requires
                index >= 0,
                size >= 0,
        ;
    }
    let count: u128 = index as u128 + 1;
    match size.checked_mul(count) {
        Some(end) => {
            proof {
                assert(size * count == (index + 1) * size) by (nonlinear_arith)
                    requires
                        count == index + 1,
                ;
            }
            if end <= len as u128 {
                let start: u128 = end - size;
                return Ok(MaskRegion { start: start as usize, height: dims.1, width: dims.2 });
            }
            let mut e = owned("masks tensor truncated: expected at least ");
            push_wide(&mut e, end);
            e.append(" elements, got ");
            push_decimal(&mut e, len as u64);
            Err(e)
        },
        None => {
            proof {
                assert(size * count == (index + 1) * size) by (nonlinear_arith)
                    requires
                        count == index + 1,
                ;
            }
            let mut e = owned("masks tensor truncated: got ");
            push_decimal(&mut e, len as u64);
            Err(e)
        },
    }
}

/// The mask at source resolution: 255 where the chosen mask, sampled at the given rows and
/// columns, is set.
pub open spec fn scaled_mask(
    flat: Seq<bool>,
    m: MaskRegion,
    rows: Seq<usize>,
    cols: Seq<usize>,
) -> Seq<u8> {
    Seq::new(
        (rows.len() * cols.len()) as nat,
        |i: int|
            {
                let y = at_most(rows[i / (cols.len() as int)] as int, m.height - 1);
                let x = at_most(cols[i % (cols.len() as int)] as int, m.width - 1);
                if flat[m.start + y * m.width + x] {
                    255u8
                } else {
                    0
                }
            },
    )
}

/// Brings the chosen mask to source resolution, by the mask row of each source row and the mask
/// column of each source column.
pub fn rescale_mask(flat: &Vec<bool>, m: MaskRegion, rows: &Vec<usize>, cols: &Vec<usize>) -> (r: Vec<
    u8,
>)
    requires
        m.height > 0,
        m.width > 0,
        m.start + m.height * m.width <= flat@.len(),
    ensures
        r@ == scaled_mask(flat@, m, rows@, cols@),
{
    let mut r: Vec<u8> = Vec::new();
    let mut sy: usize = 0;
    let ghost n = flat.len();
    let ghost all = scaled_mask(flat@, m, rows@, cols@);
    let ghost w = cols@.len() as int;
    proof {
        assert(0 * w == 0);
    }
    while sy < rows.len()
        invariant
            sy <= rows@.len(),
            n == flat.len(),
            w == cols@.len(),
            m.height > 0,
            m.width > 0,
            m.start + m.height * m.width <= flat@.len(),
            all == scaled_mask(flat@, m, rows@, cols@),
            r@.len() == sy * w,
            forall|k: int| 0 <= k < r@.len() ==> #[trigger] r@[k] == all[k],
            sy * w <= rows@.len() * w,
        decreases rows.len() - sy,
    {
        let my: usize = if rows[sy] <= m.height - 1 {
            rows[sy]
        } else {
            m.height - 1
        };
        proof {
            assert((sy + 1) * w == sy * w + w) by (nonlinear_arith);
            assert((sy + 1) * w <= rows@.len() * w) by (nonlinear_arith)
                requires
                    sy + 1 <= rows@.len(),
                    w >= 0,
            ;
        }
        let mut sx: usize = 0;
        while sx < cols.len()
            invariant
                sy < rows@.len(),
                sx <= cols@.len(),
                n == flat.len(),
                w == cols@.len(),
                m.height > 0,
                m.width > 0,
                m.start + m.height * m.width <= flat@.len(),
                my == at_most(rows@[sy as int] as int, m.height - 1),
                all == scaled_mask(flat@, m, rows@, cols@),
                r@.len() == sy * w + sx,
                sy * w + w <= rows@.len() * w,
                forall|k: int| 0 <= k < r@.len() ==> #[trigger] r@[k] == all[k],
            decreases cols.len() - sx,
        {
            let mx: usize = if cols[sx] <= m.width - 1 {
                cols[sx]
            } else {
                m.width - 1
            };
            proof {
                assert(my * m.width + mx + 1 <= m.height * m.width) by (nonlinear_arith)
                    requires
                        my + 1 <= m.height,
                        mx + 1 <= m.width,
                ;
                assert(my * m.width >= 0) by (nonlinear_arith)
                    requires
                        my >= 0,
                        m.width >= 0,
                ;
                let k = sy * w + sx;
                assert(k / w == sy && k % w == sx) by {
                    vstd::arithmetic::div_mod::lemma_fundamental_div_mod_converse(
                        k,
                        w,
                        sy as int,
                        sx as int,
                    );
                }
            }
            let on: bool = flat[m.start + (my * m.width + mx)];
            r.push(
                if on {
                    255
                } else {
                    0
                },
            );
            sx = sx + 1;
        }
        sy = sy + 1;
    }
    proof {
        assert(r@ =~= all);
    }
    r
}

/// What the decoder gave under a name.
#[derive(Debug)]
pub enum Output<T> {
    Missing,
    Unreadable { error: String },
    Read(T),
}

/// The decoder's scores and masks, the masks with their shape.
#[derive(Debug)]
pub struct DecoderOutputs {
    pub scores: Output<Vec<Real>>,
    pub masks: Output<(Vec<i64>, Vec<bool>)>,
}

/// What was cut out: 255 within and 0 outside, row by row, in pixels of the source, and how sure
/// the model is of it.
#[derive(Debug)]
pub struct SegmentResult {
    pub mask: Vec<u8>,
    pub src_w: usize,
    pub src_h: usize,
    pub score: Real,
}

/// The mask with the best score, and that score, or why there is none.
pub open spec fn chosen_mask(o: DecoderOutputs) -> Result<(MaskRegion, Real), Seq<char>> {
    match o.scores {
        Output::Missing => Err("decoder output missing 'scores'"@),
        Output::Unreadable { error } => Err("decoder scores extract: "@ + error@),
        Output::Read(scores) => if scores@.len() == 0 {
            Err("decoder returned zero-length scores vector"@)
        } else {
            match o.masks {
                Output::Missing => Err("decoder output missing 'masks'"@),
                Output::Unreadable { error } => Err("decoder masks extract: "@ + error@),
                Output::Read(masks) => match mask_dims(masks.0@) {
                    None => Err(
                        "masks shape: "@ + ("unsupported masks rank/shape: ["@ + shape_text(
                            masks.0@,
                            masks.0@.len(),
                        ) + "]"@),
                    ),
                    Some(d) => match mask_at(
                        d,
                        best_score(scores@).0 as usize,
                        masks.1@.len() as usize,
                    ) {
                        Ok(m) => Ok((m, best_score(scores@).1)),
                        Err(e) => Err(e),
                    },
                },
            }
        },
    }
}

/// What a result says.
pub struct CutoutView {
    pub mask: Seq<u8>,
    pub src_w: usize,
    pub src_h: usize,
    pub score: Real,
}

impl SegmentResult {
    pub open spec fn view(&self) -> CutoutView {
        CutoutView {
            mask: self.mask@,
            src_w: self.src_w,
            src_h: self.src_h,
            score: self.score,
        }
    }
}

/// The result of what the decoder gave, or why there is none.
pub open spec fn cutout_of(
    o: DecoderOutputs,
    src_w: usize,
    src_h: usize,
    rows: Seq<usize>,
    cols: Seq<usize>,
) -> Result<CutoutView, Seq<char>> {
    match chosen_mask(o) {
        Ok(c) => Ok(
            CutoutView {
                mask: scaled_mask(o.masks->Read_0.1@, c.0, rows, cols),
                src_w,
                src_h,
                score: c.1,
            },
        ),
        Err(e) => Err(e),
    }
}

/// Makes the result of what the decoder gave, by the mask row of each source row and the mask column
/// of each source column.
pub fn segment_result(
    outputs: DecoderOutputs,
    src_w: usize,
    src_h: usize,
    rows: &Vec<usize>,
    cols: &Vec<usize>,
) -> (r: Result<SegmentResult, String>)
    requires
        rows@.len() == src_h,
        cols@.len() == src_w,
        outputs.masks matches Output::Read(m) ==> (mask_dims(m.0@) matches Some(d) ==> d.1 > 0 && d.2
            > 0),
    ensures
        match r {
            Ok(s) => cutout_of(outputs, src_w, src_h, rows@, cols@) == Ok::<CutoutView, Seq<char>>(
                s@,
            ),
            Err(e) => cutout_of(outputs, src_w, src_h, rows@, cols@) == Err::<
                CutoutView,
                Seq<char>,
            >(e@),
        },
{
    let scores = match outputs.scores {
        Output::Missing => {
            return Err(owned("decoder output missing 'scores'"));
        },
        Output::Unreadable { error } => {
            let mut e = owned("decoder scores extract: ");
            e.append(&error);
            return Err(e);
        },
        Output::Read(s) => s,
    };
    if scores.len() == 0 {
        return Err(owned("decoder returned zero-length scores vector"));
    }
    let (index, score) = best_score_index(&scores);
    let masks = match outputs.masks {
        Output::Missing => {
            return Err(owned("decoder output missing 'masks'"));
        },
        Output::Unreadable { error } => {
            let mut e = owned("decoder masks extract: ");
            e.append(&error);
            return Err(e);
        },
        Output::Read(m) => m,
    };
    let dims = match interpret_mask_shape(&masks.0) {
        Ok(d) => d,
        Err(cause) => {
            let mut e = owned("masks shape: ");
            e.append(&cause);
            return Err(e);
        },
    };
    let region = match locate_mask(dims, index, masks.1.len()) {
        Ok(m) => m,
        Err(e) => {
            return Err(e);
        },
    };
    let mask = rescale_mask(&masks.1, region, rows, cols);
    Ok(SegmentResult { mask, src_w, src_h, score })
}

/// A cut-out has one byte for each pixel of the source.
pub proof fn lemma_mask_covers_source(flat: Seq<bool>, m: MaskRegion, rows: Seq<usize>, cols: Seq<usize>)
    ensures
        scaled_mask(flat, m, rows, cols).len() == rows.len() * cols.len(),
        forall|i: int|
            0 <= i < rows.len() * cols.len() ==> #[trigger] scaled_mask(flat, m, rows, cols)[i] == 0
                || scaled_mask(flat, m, rows, cols)[i] == 255,
{
}

/// What the model and the scaling back give for a box: the decoder's outputs, the mask row of each
/// source row, and the mask column of each source column.
pub struct Answer {
    pub outputs: DecoderOutputs,
    pub rows: Seq<usize>,
    pub cols: Seq<usize>,
}

/// What comes of a request from beginning to end, where `answer` tells what the model makes of each
/// box in the picture.
pub open spec fn segmented(
    rgb_len: usize,
    src_w: usize,
    src_h: usize,
    prompt: BoxPrompt,
    last: LastPixel,
    answer: spec_fn(BoxPrompt) -> Answer,
) -> Result<CutoutView, Seq<char>> {
    match asked_box(rgb_len, src_w, src_h, prompt, last) {
        Ok(p) => cutout_of(answer(p).outputs, src_w, src_h, answer(p).rows, answer(p).cols),
        Err(e) => Err(e),
    }
}

/// The corners of a box may come in any order: what comes of it is what comes of the box with its
/// corners in order.
pub proof fn lemma_corner_order_is_free(
    rgb_len: usize,
    src_w: usize,
    src_h: usize,
    prompt: BoxPrompt,
    last: LastPixel,
    answer: spec_fn(BoxPrompt) -> Answer,
)
    ensures
        segmented(rgb_len, src_w, src_h, prompt, last, answer) == segmented(
            rgb_len,
            src_w,
            src_h,
            prompt.ordered(),
            last,
            answer,
        ),
{
    assert(prompt.ordered().ordered() == prompt.ordered());
}

/// A request gives a mask of the size of the picture, of bytes 0 and 255, with the highest score that
/// the decoder gave, or one of the errors: of the picture, of the box, or of what the decoder gave.
/// Where no score is a number above minus infinity, the result has that.
pub proof fn lemma_segment_is_mask_or_error(
    rgb_len: usize,
    src_w: usize,
    src_h: usize,
    prompt: BoxPrompt,
    last: LastPixel,
    answer: spec_fn(BoxPrompt) -> Answer,
)
    requires
        forall|p: BoxPrompt| (#[trigger] answer(p)).rows.len() == src_h && answer(p).cols.len() == src_w,
    ensures
        ({
            let asked = answer(prompt.ordered().clamped(last)).outputs;
            match segmented(rgb_len, src_w, src_h, prompt, last, answer) {
                Ok(c) => {
                    &&& frame_error(rgb_len, src_w, src_h) is None
                    &&& !prompt.ordered().clamped(last).has_no_area()
                    &&& c.src_w == src_w && c.src_h == src_h
                    &&& c.mask.len() == src_w * src_h
                    &&& forall|i: int|
                        0 <= i < c.mask.len() ==> #[trigger] c.mask[i] == 0 || c.mask[i] == 255
                    &&& asked.scores matches Output::Read(s) && (s@.contains(c.score) || c.score
                        == Real { bits: LOWEST_BITS }) && forall|i: int|
                        0 <= i < s@.len() ==> !c.score.is_less(#[trigger] s@[i])
                },
                Err(e) => {
                    ||| frame_error(rgb_len, src_w, src_h) == Some(e)
                    ||| prompt.ordered().clamped(last).has_no_area() && e == no_area()
                    ||| chosen_mask(asked) == Err::<(MaskRegion, Real), Seq<char>>(e)
                },
            }
        }),
{
    let p = prompt.ordered().clamped(last);
    let a = answer(p);
    if let Ok(c) = segmented(rgb_len, src_w, src_h, prompt, last, answer) {
        let m = chosen_mask(a.outputs)->Ok_0.0;
        lemma_mask_covers_source(a.outputs.masks->Read_0.1@, m, a.rows, a.cols);
        assert(src_h * src_w == src_w * src_h) by (nonlinear_arith);
        let s = a.outputs.scores->Read_0@;
        lemma_score_is_given(s);
        assert forall|i: int| 0 <= i < s.len() implies !c.score.is_less(#[trigger] s[i]) by {
            lemma_best_score(s, i);
        }
    }
}

proof fn lemma_score_is_given(scores: Seq<Real>)
    ensures
        scores.contains(best_score(scores).1) || best_score(scores).1 == (Real { bits: LOWEST_BITS }),
    decreases scores.len(),
{
    if scores.len() > 0 {
        let front = scores.drop_last();
        lemma_score_is_given(front);
        if front.contains(best_score(front).1) {
            let i = choose|i: int| 0 <= i < front.len() && front[i] == best_score(front).1;
            assert(scores[i] == front[i]);
        }
        assert(scores[scores.len() - 1] == scores.last());
    }
}

/// A box that was moved into a picture lies in it, along each side.
pub proof fn lemma_clamped_box_inside(p: BoxPrompt, last: LastPixel)
    requires
        p.x1.is_number(),
        p.y1.is_number(),
        p.x2.is_number(),
        p.y2.is_number(),
        (Real { bits: 0 }).is_at_most(last.x),
        (Real { bits: 0 }).is_at_most(last.y),
    ensures
        ({
            let zero = Real { bits: 0 };
            let c = p.clamped(last);
            &&& zero.is_at_most(c.x1) && c.x1.is_at_most(last.x)
            &&& zero.is_at_most(c.x2) && c.x2.is_at_most(last.x)
            &&& zero.is_at_most(c.y1) && c.y1.is_at_most(last.y)
            &&& zero.is_at_most(c.y2) && c.y2.is_at_most(last.y)
            &&& zero.is_at_most(p.x1) && p.x1.is_at_most(last.x) ==> c.x1 == p.x1
            &&& zero.is_at_most(p.y1) && p.y1.is_at_most(last.y) ==> c.y1 == p.y1
            &&& zero.is_at_most(p.x2) && p.x2.is_at_most(last.x) ==> c.x2 == p.x2
            &&& zero.is_at_most(p.y2) && p.y2.is_at_most(last.y) ==> c.y2 == p.y2
        }),
{
}

/// A picture has the right size where it has three bytes for each pixel, and any.
pub proof fn lemma_frame_error(rgb_len: usize, src_w: usize, src_h: usize)
    ensures
        frame_error(rgb_len, src_w, src_h) is None <==> src_w > 0 && src_h > 0 && rgb_len == src_w
            * src_h * 3,
{
}

} // verus!
