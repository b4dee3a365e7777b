//! Relocation of a file into a directory layout partitioned by capture date:
//! where a record goes, and the steps that take it there without overwriting
//! what is already in place.

use crate::dates::{exif_timestamp, ExifDate};
use crate::paths::{extension, file_name, file_name_of, is_component, join, join_chars, join_paths,
    last_dot, lemma_file_name_is_component, lemma_file_name_of_join, lemma_last_dot,
    lemma_last_dot_unique, stem, stem_end, stem_end_of, DOT, SEPARATOR};
use crate::record::{FileInfo, FileInfoView};
use crate::text::{chars_of, decimal, is_digit, lemma_decimal_digits, lemma_decimal_nonempty,
    push_decimal, push_range, push_signed_decimal, push_str, signed_decimal, string_of};
use rand::distributions::Alphanumeric;
use rand::Rng;
use vstd::prelude::*;

verus! {

/// The directory under the target root that holds the files with a capture
/// date, by year, month and day.
pub const BY_DATE_DIR: &'static str = "by_date";

/// The directory under the target root that holds the files without a
/// capture date.
pub const UNSORTED_DIR: &'static str = "unsorted";

/// What is put into a file's name, between stem and extension, where its
/// planned name is taken.
pub const DUPLICATE_MARKER: &'static str = "_duplicate_";

/// The number of characters of the token that follows the marker.
pub const TOKEN_LENGTH: usize = 6;

/// The directory into which a file goes: `by_date`, the year, the month and
/// the day under `root` where the file has a capture date, month and day as
/// plain decimal numbers without padding; `unsorted` under `root` where it
/// has none.
pub open spec fn destination_dir(root: Seq<char>, date: Option<ExifDate>) -> Seq<char> {
    match date {
        Some(d) => join(
            join(
                join(join(root, BY_DATE_DIR@), signed_decimal(d.year as int)),
                decimal(d.month as nat),
            ),
            decimal(d.day as nat),
        ),
        None => join(root, UNSORTED_DIR@),
    }
}

/// The directory into which a file with the capture date `date` goes under
/// `root`.
pub fn destination_dir_of(root: &str, date: Option<ExifDate>) -> (dir: String)
    ensures
        dir@ == destination_dir(root@, date),
{
    let root_chars = chars_of(root);
    match date {
        Some(d) => {
            let by_date = chars_of(BY_DATE_DIR);
            let mut year: Vec<char> = Vec::new();
            push_signed_decimal(&mut year, d.year);
            let mut month: Vec<char> = Vec::new();
            push_decimal(&mut month, d.month as u128);
            let mut day: Vec<char> = Vec::new();
            push_decimal(&mut day, d.day as u128);
            assert(year@ == signed_decimal(d.year as int));
            assert(month@ == decimal(d.month as nat));
            assert(day@ == decimal(d.day as nat));
            let a = join_chars(root_chars.as_slice(), by_date.as_slice());
            let b = join_chars(a.as_slice(), year.as_slice());
            let c = join_chars(b.as_slice(), month.as_slice());
            let e = join_chars(c.as_slice(), day.as_slice());
            string_of(e.as_slice())
        },
        None => {
            let unsorted = chars_of(UNSORTED_DIR);
            let dir = join_chars(root_chars.as_slice(), unsorted.as_slice());
            string_of(dir.as_slice())
        },
    }
}

/// A decimal numeral, signed or not, can stand as a component of a path.
pub proof fn lemma_decimal_is_component(n: int)
    ensures
        is_component(signed_decimal(n)),
        n >= 0 ==> is_component(decimal(n as nat)),
{
    let magnitude = if n < 0 {
        (-n) as nat
    } else {
        n as nat
    };
    let digits = decimal(magnitude);
    let numeral = signed_decimal(n);
    lemma_decimal_nonempty(magnitude);
    lemma_decimal_digits(magnitude);
    assert(is_digit(digits[0]));
    assert forall|i: int| 0 <= i < numeral.len() implies numeral[i] != SEPARATOR && (i > 0
        ==> numeral[i] != DOT) by {
        if n < 0 {
            if i > 0 {
                assert(numeral[i] == digits[i - 1]);
                assert(is_digit(digits[i - 1]));
            }
        } else {
            assert(is_digit(digits[i]));
        }
    }
    assert(numeral[0] != DOT);
}

/// A record without any date attribute goes to `unsorted` under the root.
pub proof fn law_undated_goes_to_unsorted(root: Seq<char>, record: FileInfoView)
    requires
        !record.has_date_key(),
    ensures
        destination_dir(root, record.exif_date()) == join(root, UNSORTED_DIR@),
{
}

/// A record whose deciding date attribute is no timestamp goes to `unsorted`
/// under the root, whatever its other date attributes say.
pub proof fn law_unreadable_date_goes_to_unsorted(root: Seq<char>, record: FileInfoView)
    requires
        record.date_text() matches Some(text) && exif_timestamp(text) is None,
    ensures
        destination_dir(root, record.exif_date()) == join(root, UNSORTED_DIR@),
{
}

/// A record with a capture date goes to the directory of its day, inside
/// that of its month, inside that of its year, inside `by_date` under the
/// root.
pub proof fn law_dated_goes_to_its_day(root: Seq<char>, record: FileInfoView)
    requires
        record.exif_date() is Some,
    ensures
        ({
            let date = record.exif_date()->Some_0;
            let years = join(root, BY_DATE_DIR@);
            let year = join(years, signed_decimal(date.year as int));
            let month = join(year, decimal(date.month as nat));
            let day = join(month, decimal(date.day as nat));
            &&& destination_dir(root, record.exif_date()) == day
            &&& file_name(day) == Some(decimal(date.day as nat))
            &&& file_name(month) == Some(decimal(date.month as nat))
            &&& file_name(year) == Some(signed_decimal(date.year as int))
            &&& file_name(years) == Some(BY_DATE_DIR@)
        }),
{
    let date = record.exif_date()->Some_0;
    let years = join(root, BY_DATE_DIR@);
    let year = join(years, signed_decimal(date.year as int));
    let month = join(year, decimal(date.month as nat));
    lemma_decimal_is_component(date.day as int);
    lemma_decimal_is_component(date.month as int);
    lemma_decimal_is_component(date.year as int);
    lemma_file_name_of_join(month, decimal(date.day as nat));
    lemma_file_name_of_join(year, decimal(date.month as nat));
    lemma_file_name_of_join(years, signed_decimal(date.year as int));
    assert(is_component(BY_DATE_DIR@)) by {
        reveal_strlit("by_date");
        let name = BY_DATE_DIR@;
        if name.contains(SEPARATOR) {
            let i = choose|i: int| 0 <= i < name.len() && name[i] == SEPARATOR;
        }
    }
    lemma_file_name_of_join(root, BY_DATE_DIR@);
}

/// Whether `c` is a letter of the Latin alphabet or a decimal digit.
pub open spec fn is_alphanumeric(c: char) -> bool {
    ('0' <= c <= '9') || ('a' <= c <= 'z') || ('A' <= c <= 'Z')
}

/// Whether `token` can stand behind the marker: `TOKEN_LENGTH` characters,
/// each a letter or a digit.
pub open spec fn is_token(token: Seq<char>) -> bool {
    &&& token.len() == TOKEN_LENGTH
    &&& forall|i: int| 0 <= i < token.len() ==> is_alphanumeric(#[trigger] token[i])
}

/// Whether `token` can stand behind the marker.
pub fn is_token_text(token: &str) -> (ok: bool)
    ensures
        ok == is_token(token@),
{
    let chars = chars_of(token);
    if chars.len() != TOKEN_LENGTH {
        return false;
    }
    let mut i: usize = 0;
    while i < chars.len()
        invariant
            i <= chars@.len(),
            chars@ == token@,
            forall|j: int| 0 <= j < i ==> is_alphanumeric(#[trigger] chars@[j]),
        decreases chars@.len() - i,
    {
        let c = chars[i];
        if !((c >= '0' && c <= '9') || (c >= 'a' && c <= 'z') || (c >= 'A' && c <= 'Z')) {
            return false;
        }
        i += 1;
    }
    true
}

/// Draws `len` characters with `rand`: `thread_rng().sample_iter(&Alphanumeric)`,
/// cut off after `len` items. Which characters come is left open; each is a
/// letter of the Latin alphabet or a decimal digit, the only values that
/// `Alphanumeric` yields.
#[verifier::external_body]
fn rnd_str(len: usize) -> (s: String)
    ensures
        s@.len() == len,
        forall|i: int| 0 <= i < s@.len() ==> is_alphanumeric(#[trigger] s@[i]),
{
    rand::thread_rng().sample_iter(&Alphanumeric).take(len).map(char::from).collect()
}

/// The name under which a file goes where `name` is taken: the marker and
/// `token` stand between the stem of `name` and the dot of its extension, or
/// at the end where `name` has no extension.
pub open spec fn collision_name(name: Seq<char>, token: Seq<char>) -> Seq<char> {
    stem(name) + DUPLICATE_MARKER@ + token + name.subrange(stem_end(name), name.len() as int)
}

/// The name under which a file goes where `name` is taken.
pub fn collision_name_of(name: &str, token: &str) -> (renamed: String)
    ensures
        renamed@ == collision_name(name@, token@),
{
    let chars = chars_of(name);
    let cut = stem_end_of(chars.as_slice());
    let mut renamed: Vec<char> = Vec::new();
    push_range(&mut renamed, chars.as_slice(), 0, cut);
    push_str(&mut renamed, DUPLICATE_MARKER);
    push_str(&mut renamed, token);
    push_range(&mut renamed, chars.as_slice(), cut, chars.len());
    string_of(renamed.as_slice())
}

/// The marker is eleven characters long and holds neither a dot nor a
/// separator.
pub proof fn lemma_marker()
    ensures
        DUPLICATE_MARKER@.len() == 11,
        !DUPLICATE_MARKER@.contains(DOT),
        !DUPLICATE_MARKER@.contains(SEPARATOR),
{
    reveal_strlit("_duplicate_");
}

/// A token holds neither a dot nor a separator.
pub proof fn lemma_token_plain(token: Seq<char>)
    requires
        is_token(token),
    ensures
        !token.contains(DOT),
        !token.contains(SEPARATOR),
{
    if token.contains(DOT) {
        let i = choose|i: int| 0 <= i < token.len() && token[i] == DOT;
        assert(is_alphanumeric(token[i]));
    }
    if token.contains(SEPARATOR) {
        let i = choose|i: int| 0 <= i < token.len() && token[i] == SEPARATOR;
        assert(is_alphanumeric(token[i]));
    }
}

/// The name made for a taken name keeps the stem at its start and the
/// extension at its end: its stem is the old stem with marker and token
/// behind it, and its extension is the old extension. It is longer than the
/// old name, hence another name, and it can stand as a component.
pub proof fn lemma_collision_name(name: Seq<char>, token: Seq<char>)
    requires
        is_component(name),
        is_token(token),
    ensures
        stem(collision_name(name, token)) == stem(name) + DUPLICATE_MARKER@ + token,
        extension(collision_name(name, token)) == extension(name),
        collision_name(name, token).len() == name.len() + DUPLICATE_MARKER@.len() + TOKEN_LENGTH,
        collision_name(name, token) != name,
        is_component(collision_name(name, token)),
{
    lemma_marker();
    lemma_token_plain(token);
    lemma_last_dot(name);
    let cut = stem_end(name);
    let inserted = DUPLICATE_MARKER@ + token;
    let renamed = collision_name(name, token);
    let tail = name.subrange(cut, name.len() as int);
    assert(renamed == stem(name) + inserted + tail);
    assert(renamed.len() == name.len() + 17);
    assert forall|i: int| 0 <= i < renamed.len() implies #[trigger] renamed[i] == (if i < cut {
        name[i]
    } else if i < cut + 17 {
        inserted[i - cut]
    } else {
        name[i - 17]
    }) by {}
    assert forall|i: int| 0 <= i < inserted.len() implies inserted[i] != DOT && inserted[i]
        != SEPARATOR by {
        if i < 11 {
            assert(DUPLICATE_MARKER@.contains(DUPLICATE_MARKER@[i]));
        } else {
            assert(token.contains(token[i - 11]));
        }
    }
    let d = last_dot(name);
    if d > 0 {
        assert forall|i: int| d + 17 < i < renamed.len() implies renamed[i] != DOT by {}
        lemma_last_dot_unique(renamed, d + 17);
        assert(stem_end(renamed) == cut + 17);
        assert(renamed.subrange(cut + 17 + 1, renamed.len() as int) == name.subrange(
            cut + 1,
            name.len() as int,
        ));
    } else {
        assert(tail == Seq::<char>::empty());
        assert forall|i: int| d < i < renamed.len() implies renamed[i] != DOT by {}
        lemma_last_dot_unique(renamed, d);
    }
    assert(renamed.subrange(0, cut + 17) == stem(name) + inserted);
    assert(stem(name) + inserted == stem(name) + DUPLICATE_MARKER@ + token);
    assert forall|i: int| 0 <= i < renamed.len() implies renamed[i] != SEPARATOR by {
        if i < cut {
            assert(name.contains(name[i]));
        } else if i >= cut + 17 {
            assert(name.contains(name[i - 17]));
        }
    }
}

/// The text that announces that a file goes under another name.
pub open spec fn warning_text(name: Seq<char>) -> Seq<char> {
    "warning: detected potential duplicate, renaming to: "@ + name
}

/// The text that announces that a file goes under the name `name`.
pub fn warning_text_of(name: &str) -> (message: String)
    ensures
        message@ == warning_text(name@),
{
    let mut message: Vec<char> = Vec::new();
    push_str(&mut message, "warning: detected potential duplicate, renaming to: ");
    push_str(&mut message, name);
    string_of(message.as_slice())
}

/// How far the relocation of one file has come.
pub enum MoveState {
    /// Nothing has been done; the source is to be looked at.
    Pending,
    /// The source is a file; the destination directory is to be made ready.
    PreparingDirectory,
    /// The directory is there; the planned destination is to be looked at.
    CheckingDestination,
    /// The planned destination is taken; the file goes to `destination`
    /// under the name `file_name`, which is to be announced.
    Announcing { destination: String, file_name: String },
    /// The file is to be renamed to `destination`.
    Renaming { destination: String },
    /// The source was gone or was a directory: nothing was done.
    Skipped,
    /// The destination directory could not be made: nothing was moved.
    DirectoryFailed,
    /// The file is at `destination`.
    Moved { destination: String },
    /// The rename to `destination` failed: the file is where it was.
    Abandoned { destination: String },
}

/// A `MoveState` as plain values.
pub enum MoveStateView {
    Pending,
    PreparingDirectory,
    CheckingDestination,
    Announcing { destination: Seq<char>, file_name: Seq<char> },
    Renaming { destination: Seq<char> },
    Skipped,
    DirectoryFailed,
    Moved { destination: Seq<char> },
    Abandoned { destination: Seq<char> },
}

impl View for MoveState {
    type V = MoveStateView;

    open spec fn view(&self) -> MoveStateView {
        match self {
            MoveState::Pending => MoveStateView::Pending,
            MoveState::PreparingDirectory => MoveStateView::PreparingDirectory,
            MoveState::CheckingDestination => MoveStateView::CheckingDestination,
            MoveState::Announcing { destination, file_name } => MoveStateView::Announcing {
                destination: destination@,
                file_name: file_name@,
            },
            MoveState::Renaming { destination } => MoveStateView::Renaming {
                destination: destination@,
            },
            MoveState::Skipped => MoveStateView::Skipped,
            MoveState::DirectoryFailed => MoveStateView::DirectoryFailed,
            MoveState::Moved { destination } => MoveStateView::Moved { destination: destination@ },
            MoveState::Abandoned { destination } => MoveStateView::Abandoned {
                destination: destination@,
            },
        }
    }
}

impl MoveStateView {
    /// Whether the relocation has ended, one way or another.
    pub open spec fn is_final(self) -> bool {
        self is Skipped || self is DirectoryFailed || self is Moved || self is Abandoned
    }
}

/// What the file system answered to the last action.
#[derive(Clone, Copy, Debug, PartialEq, Eq)]
pub enum MoveEvent {
    /// The source was looked at: whether anything is there, and whether it is
    /// a directory.
    SourceExamined { found: bool, is_dir: bool },
    /// The destination directory was asked for: whether it is there now.
    DirectoryPrepared { ok: bool },
    /// The planned destination was looked at: whether anything is there.
    DestinationExamined { occupied: bool },
    /// The warning was written.
    WarningEmitted,
    /// The rename was tried: whether it succeeded.
    RenameFinished { ok: bool },
}

/// What is to be done on the file system next.
pub enum MoveAction {
    /// Find out whether `path` exists and whether it is a directory.
    ExamineSource { path: String },
    /// Make sure that the directory `path` exists, with all its ancestors.
    PrepareDirectory { path: String },
    /// Find out whether anything exists at `path`.
    ExamineDestination { path: String },
    /// Write `message` to the diagnostic stream.
    Warn { message: String },
    /// Rename `from` to `to` in one step.
    Rename { from: String, to: String },
    /// Nothing: the relocation has ended.
    Done,
}

/// A `MoveAction` as plain values.
pub enum MoveActionView {
    ExamineSource { path: Seq<char> },
    PrepareDirectory { path: Seq<char> },
    ExamineDestination { path: Seq<char> },
    Warn { message: Seq<char> },
    Rename { from: Seq<char>, to: Seq<char> },
    Done,
}

impl View for MoveAction {
    type V = MoveActionView;

    open spec fn view(&self) -> MoveActionView {
        match self {
            MoveAction::ExamineSource { path } => MoveActionView::ExamineSource { path: path@ },
            MoveAction::PrepareDirectory { path } => MoveActionView::PrepareDirectory {
                path: path@,
            },
            MoveAction::ExamineDestination { path } => MoveActionView::ExamineDestination {
                path: path@,
            },
            MoveAction::Warn { message } => MoveActionView::Warn { message: message@ },
            MoveAction::Rename { from, to } => MoveActionView::Rename { from: from@, to: to@ },
            MoveAction::Done => MoveActionView::Done,
        }
    }
}

/// The planned relocation of one file.
pub struct MoveOperation {
    source_file: FileInfo,
    target_dir: String,
    file_name: String,
    target_path: String,
}

/// A `MoveOperation` as plain values.
pub struct MoveOperationView {
    /// The record of the file that is to be moved.
    pub source_file: FileInfoView,
    /// The directory into which it goes.
    pub target_dir: Seq<char>,
    /// The name under which it goes there.
    pub file_name: Seq<char>,
    /// The path at which it is to stand.
    pub target_path: Seq<char>,
}

impl MoveOperationView {
    /// The name can stand as a component, and the target path is that name
    /// inside the target directory.
    pub open spec fn well_formed(self) -> bool {
        &&& is_component(self.file_name)
        &&& self.target_path == join(self.target_dir, self.file_name)
    }

    /// Whether the step from `state` on `event` draws a token.
    pub open spec fn draws_token(state: MoveStateView, event: MoveEvent) -> bool {
        state is CheckingDestination && event == (MoveEvent::DestinationExamined { occupied: true })
    }

    /// The state that follows `state` when the file system answers `event`.
    /// `token` is read only where the planned destination is taken. An event
    /// that does not answer the action of `state` changes nothing.
    pub open spec fn next_state(
        self,
        state: MoveStateView,
        event: MoveEvent,
        token: Seq<char>,
    ) -> MoveStateView {
        match (state, event) {
            (MoveStateView::Pending, MoveEvent::SourceExamined { found, is_dir }) => {
                if !found || is_dir {
                    MoveStateView::Skipped
                } else {
                    MoveStateView::PreparingDirectory
                }
            },
            (MoveStateView::PreparingDirectory, MoveEvent::DirectoryPrepared { ok }) => {
                if ok {
                    MoveStateView::CheckingDestination
                } else {
                    MoveStateView::DirectoryFailed
                }
            },
            (MoveStateView::CheckingDestination, MoveEvent::DestinationExamined { occupied }) => {
                if occupied {
                    MoveStateView::Announcing {
                        destination: join(self.target_dir, collision_name(self.file_name, token)),
                        file_name: collision_name(self.file_name, token),
                    }
                } else {
                    MoveStateView::Renaming { destination: self.target_path }
                }
            },
            (MoveStateView::Announcing { destination, file_name }, MoveEvent::WarningEmitted) => {
                MoveStateView::Renaming { destination }
            },
            (MoveStateView::Renaming { destination }, MoveEvent::RenameFinished { ok }) => {
                if ok {
                    MoveStateView::Moved { destination }
                } else {
                    MoveStateView::Abandoned { destination }
                }
            },
            _ => state,
        }
    }

    /// What is to be done on the file system in `state`.
    pub open spec fn action(self, state: MoveStateView) -> MoveActionView {
        match state {
            MoveStateView::Pending => MoveActionView::ExamineSource {
                path: self.source_file.file_path,
            },
            MoveStateView::PreparingDirectory => MoveActionView::PrepareDirectory {
                path: self.target_dir,
            },
            MoveStateView::CheckingDestination => MoveActionView::ExamineDestination {
                path: self.target_path,
            },
            MoveStateView::Announcing { destination, file_name } => MoveActionView::Warn {
                message: warning_text(file_name),
            },
            MoveStateView::Renaming { destination } => MoveActionView::Rename {
                from: self.source_file.file_path,
                to: destination,
            },
            _ => MoveActionView::Done,
        }
    }
}

impl View for MoveOperation {
    type V = MoveOperationView;

    closed spec fn view(&self) -> MoveOperationView {
        MoveOperationView {
            source_file: self.source_file@,
            target_dir: self.target_dir@,
            file_name: self.file_name@,
            target_path: self.target_path@,
        }
    }
}

impl MoveOperation {
    #[verifier::type_invariant]
    spec fn consistent(&self) -> bool {
        self@.well_formed()
    }

    /// Plans the relocation of the file of `fi` under the root `target`: into
    /// the directory that its capture date gives, under its own name. The
    /// path of the file must have a final component.
    pub fn new(target: String, fi: FileInfo) -> (op: MoveOperation)
        requires
            file_name(fi.file_path@) is Some,
        ensures
            op@.source_file == fi@,
            op@.target_dir == destination_dir(target@, fi@.exif_date()),
            op@.file_name == file_name(fi.file_path@)->Some_0,
            op@.target_path == join(op@.target_dir, op@.file_name),
            op@.well_formed(),
    {
        let date = fi.get_exif_date();
        let target_dir = destination_dir_of(target.as_str(), date);
        proof {
            lemma_file_name_is_component(fi.file_path@);
        }
        let file_name = match file_name_of(fi.file_path.as_str()) {
            Some(name) => name,
            None => vstd::pervasive::unreached(),
        };
        let target_path = join_paths(target_dir.as_str(), file_name.as_str());
        MoveOperation { source_file: fi, target_dir, file_name, target_path }
    }

    /// The record of the file that is to be moved.
    pub fn source_file(&self) -> (fi: &FileInfo)
        ensures
            fi@ == self@.source_file,
    {
        &self.source_file
    }

    /// The directory into which the file goes.
    pub fn target_dir(&self) -> (dir: &String)
        ensures
            dir@ == self@.target_dir,
    {
        &self.target_dir
    }

    /// The name under which the file goes.
    pub fn file_name(&self) -> (name: &String)
        ensures
            name@ == self@.file_name,
            is_component(name@),
    {
        proof {
            use_type_invariant(self);
        }
        &self.file_name
    }

    /// The path at which the file is to stand: its name inside the target
    /// directory.
    pub fn target_path(&self) -> (path: &String)
        ensures
            path@ == self@.target_path,
            path@ == join(self@.target_dir, self@.file_name),
    {
        proof {
            use_type_invariant(self);
        }
        &self.target_path
    }

    /// What is to be done on the file system in `state`.
    pub fn action_of(&self, state: &MoveState) -> (action: MoveAction)
        ensures
            action@ == self@.action(state@),
    {
        match state {
            MoveState::Pending => MoveAction::ExamineSource {
                path: self.source_file.file_path.clone(),
            },
            MoveState::PreparingDirectory => MoveAction::PrepareDirectory {
                path: self.target_dir.clone(),
            },
            MoveState::CheckingDestination => MoveAction::ExamineDestination {
                path: self.target_path.clone(),
            },
            MoveState::Announcing { destination, file_name } => MoveAction::Warn {
                message: warning_text_of(file_name.as_str()),
            },
            MoveState::Renaming { destination } => MoveAction::Rename {
                from: self.source_file.file_path.clone(),
                to: destination.clone(),
            },
            MoveState::Skipped => MoveAction::Done,
            MoveState::DirectoryFailed => MoveAction::Done,
            MoveState::Moved { destination } => MoveAction::Done,
            MoveState::Abandoned { destination } => MoveAction::Done,
        }
    }

    /// The state in which every relocation starts, with its action.
    pub fn begin(&self) -> (start: (MoveState, MoveAction))
        ensures
            start.0@ == MoveStateView::Pending,
            start.1@ == self@.action(MoveStateView::Pending),
    {
        let state = MoveState::Pending;
        let action = self.action_of(&state);
        (state, action)
    }

    /// The state that follows `state` on `event`.
    fn advance(&self, state: MoveState, event: MoveEvent, token: &str) -> (next: MoveState)
        ensures
            next@ == self@.next_state(state@, event, token@),
    {
        match state {
            MoveState::Pending => match event {
                MoveEvent::SourceExamined { found, is_dir } => {
                    if !found || is_dir {
                        MoveState::Skipped
                    } else {
                        MoveState::PreparingDirectory
                    }
                },
                _ => MoveState::Pending,
            },
            MoveState::PreparingDirectory => match event {
                MoveEvent::DirectoryPrepared { ok } => {
                    if ok {
                        MoveState::CheckingDestination
                    } else {
                        MoveState::DirectoryFailed
                    }
                },
                _ => MoveState::PreparingDirectory,
            },
            MoveState::CheckingDestination => match event {
                MoveEvent::DestinationExamined { occupied } => {
                    if occupied {
                        let file_name = collision_name_of(self.file_name.as_str(), token);
                        let destination = join_paths(
                            self.target_dir.as_str(),
                            file_name.as_str(),
                        );
                        MoveState::Announcing { destination, file_name }
                    } else {
                        MoveState::Renaming { destination: self.target_path.clone() }
                    }
                },
                _ => MoveState::CheckingDestination,
            },
            MoveState::Announcing { destination, file_name } => match event {
                MoveEvent::WarningEmitted => MoveState::Renaming { destination },
                _ => MoveState::Announcing { destination, file_name },
            },
            MoveState::Renaming { destination } => match event {
                MoveEvent::RenameFinished { ok } => {
                    if ok {
                        MoveState::Moved { destination }
                    } else {
                        MoveState::Abandoned { destination }
                    }
                },
                _ => MoveState::Renaming { destination },
            },
            MoveState::Skipped => MoveState::Skipped,
            MoveState::DirectoryFailed => MoveState::DirectoryFailed,
            MoveState::Moved { destination } => MoveState::Moved { destination },
            MoveState::Abandoned { destination } => MoveState::Abandoned { destination },
        }
    }

    /// One step of the relocation with a token that the caller chose: the
    /// state that follows `state` when the file system answers `event`, and
    /// what is to be done next. `token` is read only where the planned
    /// destination is taken.
    pub fn execute_with_token(&self, state: MoveState, event: MoveEvent, token: &str) -> (step: (
        MoveState,
        MoveAction,
    ))
        requires
            is_token(token@),
        ensures
            step.0@ == self@.next_state(state@, event, token@),
            step.1@ == self@.action(step.0@),
            self@.well_formed(),
    {
        proof {
            use_type_invariant(self);
        }
        let next = self.advance(state, event, token);
        let action = self.action_of(&next);
        (next, action)
    }

    /// One step of the relocation: the state that follows `state` when the
    /// file system answers `event`, and what is to be done next. Where the
    /// planned destination is taken, a token is drawn at random for the name
    /// under which the file goes instead.
    pub fn execute(&self, state: MoveState, event: MoveEvent) -> (step: (MoveState, MoveAction))
        ensures
            MoveOperationView::draws_token(state@, event) ==> exists|token: Seq<char>|
                is_token(token) && step.0@ == #[trigger] self@.next_state(state@, event, token),
            !MoveOperationView::draws_token(state@, event) ==> forall|token: Seq<char>|
                step.0@ == #[trigger] self@.next_state(state@, event, token),
            step.1@ == self@.action(step.0@),
            self@.well_formed(),
    {
        proof {
            use_type_invariant(self);
        }
        let draws = match (&state, event) {
            (MoveState::CheckingDestination, MoveEvent::DestinationExamined { occupied }) => occupied,
            _ => false,
        };
        assert(draws == MoveOperationView::draws_token(state@, event));
        let token = if draws {
            rnd_str(TOKEN_LENGTH)
        } else {
            String::new()
        };
        let next = self.advance(state, event, token.as_str());
        let action = self.action_of(&next);
        (next, action)
    }
}

/// The final component of the target path is the name under which the file
/// goes.
pub proof fn law_target_keeps_name(plan: MoveOperationView)
    requires
        plan.well_formed(),
    ensures
        file_name(plan.target_path) == Some(plan.file_name),
{
    lemma_file_name_of_join(plan.target_dir, plan.file_name);
}

/// Where the planned destination is taken, the file does not go there: it
/// goes into the same directory under the name made from its own name and
/// the token, which keeps stem and extension, and the action that follows the
/// warning renames the source to that path.
pub proof fn law_taken_destination_is_spared(plan: MoveOperationView, token: Seq<char>)
    requires
        plan.well_formed(),
        is_token(token),
    ensures
        plan.next_state(
            MoveStateView::CheckingDestination,
            MoveEvent::DestinationExamined { occupied: true },
            token,
        ) matches MoveStateView::Announcing { destination, file_name: renamed } && {
            &&& renamed == collision_name(plan.file_name, token)
            &&& destination == join(plan.target_dir, renamed)
            &&& destination != plan.target_path
            &&& file_name(destination) == Some(renamed)
            &&& stem(renamed) == stem(plan.file_name) + DUPLICATE_MARKER@ + token
            &&& extension(renamed) == extension(plan.file_name)
            &&& plan.action(
                plan.next_state(
                    MoveStateView::Announcing { destination, file_name: renamed },
                    MoveEvent::WarningEmitted,
                    token,
                ),
            ) == (MoveActionView::Rename { from: plan.source_file.file_path, to: destination })
        },
{
    let renamed = collision_name(plan.file_name, token);
    lemma_collision_name(plan.file_name, token);
    lemma_file_name_of_join(plan.target_dir, renamed);
    assert(join(plan.target_dir, renamed).len() != join(plan.target_dir, plan.file_name).len());
}

/// Where nothing stands at the planned destination, the file is renamed to
/// it.
pub proof fn law_free_destination_is_used(plan: MoveOperationView, token: Seq<char>)
    ensures
        plan.next_state(
            MoveStateView::CheckingDestination,
            MoveEvent::DestinationExamined { occupied: false },
            token,
        ) == (MoveStateView::Renaming { destination: plan.target_path }),
        plan.action(MoveStateView::Renaming { destination: plan.target_path }) == (
        MoveActionView::Rename { from: plan.source_file.file_path, to: plan.target_path }),
{
}

/// A source that is gone, or that is a directory, ends the relocation at
/// once: nothing is made, renamed or announced.
pub proof fn law_stale_source_is_skipped(
    plan: MoveOperationView,
    found: bool,
    is_dir: bool,
    token: Seq<char>,
)
    requires
        !found || is_dir,
    ensures
        plan.next_state(
            MoveStateView::Pending,
            MoveEvent::SourceExamined { found, is_dir },
            token,
        ) == MoveStateView::Skipped,
        plan.action(MoveStateView::Skipped) == MoveActionView::Done,
{
}

/// A relocation that has ended stays as it is and asks for nothing more.
pub proof fn law_final_states_rest(
    plan: MoveOperationView,
    state: MoveStateView,
    event: MoveEvent,
    token: Seq<char>,
)
    requires
        state.is_final(),
    ensures
        plan.next_state(state, event, token) == state,
        plan.action(state) == MoveActionView::Done,
{
}

/// A failed rename leaves the file where it was and ends the relocation: it
/// is not tried again.
pub proof fn law_failed_rename_is_abandoned(
    plan: MoveOperationView,
    destination: Seq<char>,
    token: Seq<char>,
)
    ensures
        plan.next_state(
            MoveStateView::Renaming { destination },
            MoveEvent::RenameFinished { ok: false },
            token,
        ) == (MoveStateView::Abandoned { destination }),
        (MoveStateView::Abandoned { destination }).is_final(),
{
}

/// Whether a relocation under `plan` can name `destination`: it is the
/// planned path, or the path of a name made from the planned name and a token
/// in the same directory.
pub open spec fn destination_fits(plan: MoveOperationView, destination: Seq<char>) -> bool {
    ||| destination == plan.target_path
    ||| exists|token: Seq<char>|
        is_token(token) && destination == join(
            plan.target_dir,
            #[trigger] collision_name(plan.file_name, token),
        )
}

/// Whether the paths that `state` holds are such as a relocation under
/// `plan` can name.
pub open spec fn state_fits(plan: MoveOperationView, state: MoveStateView) -> bool {
    match state {
        MoveStateView::Announcing { destination, file_name } => exists|token: Seq<char>|
            is_token(token) && file_name == #[trigger] collision_name(plan.file_name, token)
                && destination == join(plan.target_dir, file_name),
        MoveStateView::Renaming { destination } => destination_fits(plan, destination),
        MoveStateView::Moved { destination } => destination_fits(plan, destination),
        MoveStateView::Abandoned { destination } => destination_fits(plan, destination),
        _ => true,
    }
}

/// Every state that a relocation reaches from its start names only paths
/// that fit its plan: the start does, and each step keeps it so.
pub proof fn law_states_fit(
    plan: MoveOperationView,
    state: MoveStateView,
    event: MoveEvent,
    token: Seq<char>,
)
    requires
        state_fits(plan, state),
        is_token(token),
    ensures
        state_fits(plan, MoveStateView::Pending),
        state_fits(plan, plan.next_state(state, event, token)),
{
    let next = plan.next_state(state, event, token);
    match (state, event) {
        (MoveStateView::CheckingDestination, MoveEvent::DestinationExamined { occupied }) => {
            if occupied {
                assert(next matches MoveStateView::Announcing { destination, file_name }
                    && file_name == collision_name(plan.file_name, token));
            }
        },
        (MoveStateView::Announcing { destination, file_name }, MoveEvent::WarningEmitted) => {
            let t = choose|t: Seq<char>|
                is_token(t) && file_name == #[trigger] collision_name(plan.file_name, t)
                    && destination == join(plan.target_dir, file_name);
            assert(destination == join(plan.target_dir, collision_name(plan.file_name, t)));
        },
        _ => {},
    }
}

/// The file never leaves under a foreign name: the final component of each
/// path that fits the plan is the planned name, or that name with marker and
/// token before its extension.
pub proof fn law_destination_keeps_name(plan: MoveOperationView, destination: Seq<char>)
    requires
        plan.well_formed(),
        destination_fits(plan, destination),
    ensures
        file_name(destination) == Some(plan.file_name) || exists|token: Seq<char>|
            is_token(token) && file_name(destination) == Some(
                #[trigger] collision_name(plan.file_name, token),
            ),
{
    if destination == plan.target_path {
        lemma_file_name_of_join(plan.target_dir, plan.file_name);
    } else {
        let token = choose|token: Seq<char>|
            is_token(token) && destination == join(
                plan.target_dir,
                #[trigger] collision_name(plan.file_name, token),
            );
        lemma_collision_name(plan.file_name, token);
        lemma_file_name_of_join(plan.target_dir, collision_name(plan.file_name, token));
    }
}

} // verus!
