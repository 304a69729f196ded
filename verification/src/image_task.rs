//! The upload of the images of a conversation, step by step. Each step takes
//! the outcome of what was asked for and says what is to be done next.
use crate::data_url::{
    data_url_to_temp_file, mime_type_for_upload, random_part, temp_file_for, upload_mime, TempFile,
    TempFileView,
};
use crate::external::random_name;
use crate::images::{
    apply_found, apply_uploaded, by_hash, can_hash_jobs, collect_jobs, entries_for, hash_jobs,
    hashable_jobs, jobs, missed, served, show_answer_images, with_answer_images, with_found,
    with_uploaded, CacheEntry, CacheEntryView, Job, JobView,
};
use crate::text::views;
use crate::types::{opt_texts, opt_view, Message, MessageView};
use vstd::prelude::*;

verus! {

/// A file that is to be uploaded.
#[derive(Debug, PartialEq, Eq)]
pub struct LocalFile {
    /// Where the file lies.
    pub path: String,
    /// Its MIME type.
    pub mime_type: Option<String>,
}

/// The value of a `LocalFile`.
#[verifier::ext_equal]
pub struct LocalFileView {
    /// Where the file lies.
    pub path: Seq<char>,
    /// Its MIME type.
    pub mime_type: Option<Seq<char>>,
}

impl View for LocalFile {
    type V = LocalFileView;

    open spec fn view(&self) -> LocalFileView {
        LocalFileView { path: self.path@, mime_type: opt_view(self.mime_type) }
    }
}

impl Clone for LocalFile {
    fn clone(&self) -> (r: Self)
        ensures
            r@ == self@,
    {
        LocalFile {
            path: self.path.clone(),
            mime_type: match &self.mime_type {
                Some(mime_type) => Some(mime_type.clone()),
                None => None,
            },
        }
    }
}

/// What a task waits for.
#[derive(Debug, PartialEq, Eq)]
pub enum Phase {
    /// What the cache knows of the external URLs.
    UrlLookup,
    /// The upload of the external URLs that the cache does not know.
    UrlUpload,
    /// The entries for them in the cache.
    UrlStore,
    /// What the cache knows of the images that hold their data.
    HashLookup,
    /// The temporary file for the next of them that the cache does not know.
    Writing,
    /// The upload of the temporary files.
    FileUpload,
    /// The entries for them in the cache.
    HashStore,
    /// The removal of the temporary files, after which the task fails with a
    /// message or ends well.
    Removing(Option<String>),
    /// Nothing: the task is over.
    Over,
}

/// The value of a `Phase`.
#[verifier::ext_equal]
pub enum PhaseView {
    /// What the cache knows of the external URLs.
    UrlLookup,
    /// The upload of the external URLs that the cache does not know.
    UrlUpload,
    /// The entries for them in the cache.
    UrlStore,
    /// What the cache knows of the images that hold their data.
    HashLookup,
    /// The temporary file for the next of them that the cache does not know.
    Writing,
    /// The upload of the temporary files.
    FileUpload,
    /// The entries for them in the cache.
    HashStore,
    /// The removal of the temporary files.
    Removing(Option<Seq<char>>),
    /// Nothing.
    Over,
}

impl View for Phase {
    type V = PhaseView;

    open spec fn view(&self) -> PhaseView {
        match self {
            Phase::UrlLookup => PhaseView::UrlLookup,
            Phase::UrlUpload => PhaseView::UrlUpload,
            Phase::UrlStore => PhaseView::UrlStore,
            Phase::HashLookup => PhaseView::HashLookup,
            Phase::Writing => PhaseView::Writing,
            Phase::FileUpload => PhaseView::FileUpload,
            Phase::HashStore => PhaseView::HashStore,
            Phase::Removing(failure) => PhaseView::Removing(opt_view(*failure)),
            Phase::Over => PhaseView::Over,
        }
    }
}

/// What has happened.
#[derive(Debug, PartialEq, Eq)]
pub enum ImageEvent {
    /// The cache was asked, with one answer for each key.
    Found(Vec<Option<String>>),
    /// An upload gave back the URLs on the CDN, or failed.
    Uploaded(Result<Vec<String>, String>),
    /// The cache has taken the entries.
    Stored,
    /// The file was written and lies at a path, or it was not.
    Written(Result<String, String>),
    /// The removal of the files was tried.
    Removed,
}

/// The value of an `ImageEvent`.
#[verifier::ext_equal]
pub enum ImageEventView {
    /// The cache was asked.
    Found(Seq<Option<Seq<char>>>),
    /// An upload gave back the URLs on the CDN, or failed.
    Uploaded(Result<Seq<Seq<char>>, Seq<char>>),
    /// The cache has taken the entries.
    Stored,
    /// The file was written and lies at a path, or it was not.
    Written(Result<Seq<char>, Seq<char>>),
    /// The removal of the files was tried.
    Removed,
}

impl View for ImageEvent {
    type V = ImageEventView;

    open spec fn view(&self) -> ImageEventView {
        match self {
            ImageEvent::Found(found) => ImageEventView::Found(opt_texts(found@)),
            ImageEvent::Uploaded(Ok(urls)) => ImageEventView::Uploaded(Ok(views(urls@))),
            ImageEvent::Uploaded(Err(e)) => ImageEventView::Uploaded(Err(e@)),
            ImageEvent::Stored => ImageEventView::Stored,
            ImageEvent::Written(Ok(path)) => ImageEventView::Written(Ok(path@)),
            ImageEvent::Written(Err(e)) => ImageEventView::Written(Err(e@)),
            ImageEvent::Removed => ImageEventView::Removed,
        }
    }
}

/// What is to be done.
#[derive(Debug, PartialEq, Eq)]
pub enum ImageAction {
    /// Ask the cache for URLs.
    LookUpUrls(Vec<String>),
    /// Have Poe fetch what lies under the URLs.
    UploadUrls(Vec<String>),
    /// Give the cache entries for URLs, each of the given size in bytes.
    StoreUrls(Vec<CacheEntry>, usize),
    /// Ask the cache for hashes.
    LookUpHashes(Vec<String>),
    /// Write a temporary file.
    WriteFile(TempFile),
    /// Upload temporary files.
    UploadFiles(Vec<LocalFile>),
    /// Give the cache entries for hashes.
    StoreHashes(Vec<CacheEntry>),
    /// Remove temporary files.
    RemoveFiles(Vec<String>),
    /// Go on with the messages as they are now.
    Finish,
    /// Answer with an error.
    Fail(String),
}

/// The value of an `ImageAction`.
#[verifier::ext_equal]
pub enum ImageActionView {
    /// Ask the cache for URLs.
    LookUpUrls(Seq<Seq<char>>),
    /// Have Poe fetch what lies under the URLs.
    UploadUrls(Seq<Seq<char>>),
    /// Give the cache entries for URLs.
    StoreUrls(Seq<CacheEntryView>, usize),
    /// Ask the cache for hashes.
    LookUpHashes(Seq<Seq<char>>),
    /// Write a temporary file.
    WriteFile(TempFileView),
    /// Upload temporary files.
    UploadFiles(Seq<LocalFileView>),
    /// Give the cache entries for hashes.
    StoreHashes(Seq<CacheEntryView>),
    /// Remove temporary files.
    RemoveFiles(Seq<Seq<char>>),
    /// Go on with the messages as they are now.
    Finish,
    /// Answer with an error.
    Fail(Seq<char>),
}

impl View for ImageAction {
    type V = ImageActionView;

    open spec fn view(&self) -> ImageActionView {
        match self {
            ImageAction::LookUpUrls(urls) => ImageActionView::LookUpUrls(views(urls@)),
            ImageAction::UploadUrls(urls) => ImageActionView::UploadUrls(views(urls@)),
            ImageAction::StoreUrls(entries, size) => ImageActionView::StoreUrls(
                views(entries@),
                *size,
            ),
            ImageAction::LookUpHashes(keys) => ImageActionView::LookUpHashes(views(keys@)),
            ImageAction::WriteFile(file) => ImageActionView::WriteFile(file@),
            ImageAction::UploadFiles(files) => ImageActionView::UploadFiles(views(files@)),
            ImageAction::StoreHashes(entries) => ImageActionView::StoreHashes(views(entries@)),
            ImageAction::RemoveFiles(paths) => ImageActionView::RemoveFiles(views(paths@)),
            ImageAction::Finish => ImageActionView::Finish,
            ImageAction::Fail(message) => ImageActionView::Fail(message@),
        }
    }
}

/// The upload of the images of a conversation.
#[derive(Debug)]
pub struct ImageTask {
    /// The conversation.
    pub messages: Vec<Message>,
    /// What the task waits for.
    pub phase: Phase,
    /// The jobs that are being worked on.
    pub todo: Vec<Job>,
    /// The images that hold their data.
    pub data: Vec<Job>,
    /// The temporary files.
    pub files: Vec<LocalFile>,
}

/// The value of an `ImageTask`.
#[verifier::ext_equal]
pub struct TaskView {
    /// The conversation.
    pub messages: Seq<MessageView>,
    /// What the task waits for.
    pub phase: PhaseView,
    /// The jobs that are being worked on.
    pub todo: Seq<JobView>,
    /// The images that hold their data.
    pub data: Seq<JobView>,
    /// The temporary files.
    pub files: Seq<LocalFileView>,
}

impl View for ImageTask {
    type V = TaskView;

    open spec fn view(&self) -> TaskView {
        TaskView {
            messages: views(self.messages@),
            phase: self.phase@,
            todo: views(self.todo@),
            data: views(self.data@),
            files: views(self.files@),
        }
    }
}

impl TaskView {
    /// While files are being written, one is missing.
    pub open spec fn wf(self) -> bool {
        self.phase is Writing ==> self.files.len() < self.todo.len()
    }

    /// After the event the task has nothing more to do for external URLs.
    pub open spec fn turns_to_data(self, event: ImageEventView) -> bool {
        match event {
            ImageEventView::Found(found) => self.phase is UrlLookup && missed(
                self.todo,
                found,
                self.todo.len() as int,
            ).len() == 0,
            ImageEventView::Stored => self.phase is UrlStore,
            _ => false,
        }
    }

    /// The event is one that the task can take: one that it waits for, and when
    /// it turns to the images that hold their data, these can be hashed.
    pub open spec fn expects(self, event: ImageEventView) -> bool {
        self.waits_for(event) && (self.turns_to_data(event) ==> hashable_jobs(self.data))
    }

    /// The event is one that the task waits for. The cache answers for every
    /// key, and no more URLs come back than files were uploaded.
    pub open spec fn waits_for(self, event: ImageEventView) -> bool {
        match event {
            ImageEventView::Found(found) => (self.phase is UrlLookup || self.phase is HashLookup)
                && found.len() == self.todo.len(),
            ImageEventView::Uploaded(Ok(urls)) => self.phase is UrlUpload || (
            self.phase is FileUpload && urls.len() <= self.todo.len()),
            ImageEventView::Uploaded(Err(_)) => self.phase is UrlUpload || self.phase is FileUpload,
            ImageEventView::Stored => self.phase is UrlStore || self.phase is HashStore,
            ImageEventView::Written(_) => self.phase is Writing,
            ImageEventView::Removed => self.phase is Removing,
        }
    }
}

/// The size that the cache is told of an external URL, in bytes.
pub const EXTERNAL_SIZE: usize = 1048576;

/// The keys of jobs.
pub open spec fn keys(todo: Seq<JobView>) -> Seq<Seq<char>> {
    Seq::new(todo.len(), |i: int| todo[i].key)
}

/// The URLs of jobs.
pub open spec fn urls_of(todo: Seq<JobView>) -> Seq<Seq<char>> {
    Seq::new(todo.len(), |i: int| todo[i].url)
}

/// The paths of files.
pub open spec fn paths(files: Seq<LocalFileView>) -> Seq<Seq<char>> {
    Seq::new(files.len(), |i: int| files[i].path)
}

/// The end of a task that went well.
pub open spec fn finished(t: TaskView) -> (TaskView, ImageActionView) {
    (
        TaskView { messages: with_answer_images(t.messages), phase: PhaseView::Over, ..t },
        ImageActionView::Finish,
    )
}

/// A task that turns to the images that hold their data.
pub open spec fn turned_to_data(t: TaskView) -> (TaskView, ImageActionView) {
    if t.data.len() > 0 {
        (
            TaskView { phase: PhaseView::HashLookup, todo: by_hash(t.data), ..t },
            ImageActionView::LookUpHashes(keys(by_hash(t.data))),
        )
    } else {
        finished(t)
    }
}

/// A task that clears up and then fails with a message.
pub open spec fn given_up(t: TaskView, message: Seq<char>) -> (TaskView, ImageActionView) {
    (
        TaskView { phase: PhaseView::Removing(Some(message)), ..t },
        ImageActionView::RemoveFiles(paths(t.files)),
    )
}

/// A task that writes its next temporary file, if there is one.
pub open spec fn writing_next(t: TaskView, random: Seq<char>) -> (TaskView, ImageActionView) {
    if t.files.len() < t.todo.len() {
        match temp_file_for(t.todo[t.files.len() as int].url, random) {
            Ok(file) => (
                TaskView { phase: PhaseView::Writing, ..t },
                ImageActionView::WriteFile(file),
            ),
            Err(e) => given_up(t, "Failed to process data URL: "@ + e),
        }
    } else {
        (TaskView { phase: PhaseView::FileUpload, ..t }, ImageActionView::UploadFiles(t.files))
    }
}

/// The start of a task on a conversation.
pub open spec fn started(messages: Seq<MessageView>) -> (TaskView, ImageActionView) {
    let external = jobs(messages, false);
    let t = TaskView {
        messages,
        phase: PhaseView::UrlLookup,
        todo: external,
        data: jobs(messages, true),
        files: Seq::empty(),
    };
    if external.len() > 0 {
        (t, ImageActionView::LookUpUrls(keys(external)))
    } else {
        turned_to_data(t)
    }
}

/// A task on a conversation can start: there are external URLs, or the data in
/// its images can be hashed.
pub open spec fn can_begin(messages: Seq<MessageView>) -> bool {
    jobs(messages, false).len() > 0 || hashable_jobs(jobs(messages, true))
}

/// Tells whether a task on a conversation can start.
pub fn can_start(messages: &Vec<Message>) -> (b: bool)
    ensures
        b == can_begin(views(messages@)),
{
    let external = collect_jobs(messages, false);
    if external.len() > 0 {
        return true;
    }
    let data = collect_jobs(messages, true);
    can_hash_jobs(&data)
}

/// A task after the cache was asked.
pub open spec fn after_found(t: TaskView, found: Seq<Option<Seq<char>>>, random: Seq<char>) -> (
    TaskView,
    ImageActionView,
) {
    let left = missed(t.todo, found, t.todo.len() as int);
    let next = TaskView {
        messages: with_found(t.messages, t.todo, found, t.todo.len() as int),
        todo: left,
        ..t
    };
    if t.phase is UrlLookup {
        if left.len() > 0 {
            (
                TaskView { phase: PhaseView::UrlUpload, ..next },
                ImageActionView::UploadUrls(urls_of(left)),
            )
        } else {
            turned_to_data(next)
        }
    } else if left.len() > 0 {
        writing_next(next, random)
    } else {
        finished(next)
    }
}

/// A task after an upload.
pub open spec fn after_upload(t: TaskView, outcome: Result<Seq<Seq<char>>, Seq<char>>) -> (
    TaskView,
    ImageActionView,
) {
    match outcome {
        Ok(urls) => {
            let next = TaskView {
                messages: with_uploaded(t.messages, t.todo, urls, served(t.todo, urls)),
                ..t
            };
            let entries = entries_for(t.todo, urls);
            if t.phase is UrlUpload {
                (
                    TaskView { phase: PhaseView::UrlStore, ..next },
                    ImageActionView::StoreUrls(entries, EXTERNAL_SIZE),
                )
            } else {
                (
                    TaskView { phase: PhaseView::HashStore, ..next },
                    ImageActionView::StoreHashes(entries),
                )
            }
        },
        Err(e) => if t.phase is UrlUpload {
            (
                TaskView { phase: PhaseView::Over, ..t },
                ImageActionView::Fail("Failed to upload external URL: "@ + e),
            )
        } else {
            given_up(t, "Failed to upload temporary file: "@ + e)
        },
    }
}

/// A task after the cache has taken entries.
pub open spec fn after_store(t: TaskView) -> (TaskView, ImageActionView) {
    if t.phase is UrlStore {
        turned_to_data(t)
    } else {
        (
            TaskView { phase: PhaseView::Removing(None), ..t },
            ImageActionView::RemoveFiles(paths(t.files)),
        )
    }
}

/// A task after a file was written or not.
pub open spec fn after_writing(
    t: TaskView,
    outcome: Result<Seq<char>, Seq<char>>,
    random: Seq<char>,
) -> (TaskView, ImageActionView) {
    match outcome {
        Ok(path) => writing_next(
            TaskView {
                files: t.files.push(
                    LocalFileView {
                        path,
                        mime_type: upload_mime(t.todo[t.files.len() as int].url),
                    },
                ),
                ..t
            },
            random,
        ),
        Err(e) => given_up(
            t,
            "Failed to process data URL: "@ + ("Failed to write to temporary file: "@ + e),
        ),
    }
}

/// A task after the temporary files were removed.
pub open spec fn after_removal(t: TaskView) -> (TaskView, ImageActionView) {
    match t.phase {
        PhaseView::Removing(Some(message)) => (
            TaskView { phase: PhaseView::Over, ..t },
            ImageActionView::Fail(message),
        ),
        _ => finished(t),
    }
}

/// A task after an event, and what is to be done next, given the random part of
/// the name of a temporary file.
pub open spec fn after_image_event(t: TaskView, event: ImageEventView, random: Seq<char>) -> (
    TaskView,
    ImageActionView,
) {
    match event {
        ImageEventView::Found(found) => after_found(t, found, random),
        ImageEventView::Uploaded(outcome) => after_upload(t, outcome),
        ImageEventView::Stored => after_store(t),
        ImageEventView::Written(outcome) => after_writing(t, outcome, random),
        ImageEventView::Removed => after_removal(t),
    }
}

/// Collects the keys of jobs.
fn collect_keys(todo: &Vec<Job>) -> (r: Vec<String>)
    ensures
        views(r@) == keys(views(todo@)),
{
    let mut r: Vec<String> = Vec::new();
    let mut i: usize = 0;
    while i < todo.len()
        invariant
            i <= todo.len(),
            r.len() == i,
            forall|j: int| 0 <= j < i ==> (#[trigger] r@[j])@ == todo@[j].key@,
        decreases todo.len() - i,
    {
        r.push(todo[i].key.clone());
        i += 1;
    }
    assert(views(r@) =~= keys(views(todo@)));
    r
}

/// Collects the URLs of jobs.
fn collect_urls(todo: &Vec<Job>) -> (r: Vec<String>)
    ensures
        views(r@) == urls_of(views(todo@)),
{
    let mut r: Vec<String> = Vec::new();
    let mut i: usize = 0;
    while i < todo.len()
        invariant
            i <= todo.len(),
            r.len() == i,
            forall|j: int| 0 <= j < i ==> (#[trigger] r@[j])@ == todo@[j].url@,
        decreases todo.len() - i,
    {
        r.push(todo[i].url.clone());
        i += 1;
    }
    assert(views(r@) =~= urls_of(views(todo@)));
    r
}

/// Collects the paths of files.
fn collect_paths(files: &Vec<LocalFile>) -> (r: Vec<String>)
    ensures
        views(r@) == paths(views(files@)),
{
    let mut r: Vec<String> = Vec::new();
    let mut i: usize = 0;
    while i < files.len()
        invariant
            i <= files.len(),
            r.len() == i,
            forall|j: int| 0 <= j < i ==> (#[trigger] r@[j])@ == files@[j].path@,
        decreases files.len() - i,
    {
        r.push(files[i].path.clone());
        i += 1;
    }
    assert(views(r@) =~= paths(views(files@)));
    r
}

/// A text behind another one.
fn prefixed(prefix: &str, text: &str) -> (r: String)
    ensures
        r@ == prefix@ + text@,
{
    let mut r = prefix.to_owned();
    r.append(text);
    r
}

impl ImageTask {
    /// Starts a task on a conversation. Where it turns to the images that hold
    /// their data at once, these must be such that they can be hashed.
    pub fn start(messages: Vec<Message>) -> (r: (ImageTask, ImageAction))
        requires
            can_begin(views(messages@)),
        ensures
            (r.0@, r.1@) == started(views(messages@)),
            r.0@.wf(),
    {
        let external = collect_jobs(&messages, false);
        let data = collect_jobs(&messages, true);
        let wanted = collect_keys(&external);
        let some = external.len() > 0;
        let mut task = ImageTask {
            messages,
            phase: Phase::UrlLookup,
            todo: external,
            data,
            files: Vec::new(),
        };
        assert(task@.files =~= Seq::<LocalFileView>::empty());
        if some {
            (task, ImageAction::LookUpUrls(wanted))
        } else {
            let action = task.turn_to_data();
            (task, action)
        }
    }

    /// Ends a task that went well.
    fn finish(&mut self) -> (action: ImageAction)
        ensures
            (final(self)@, action@) == finished(old(self)@),
    {
        show_answer_images(&mut self.messages);
        self.phase = Phase::Over;
        ImageAction::Finish
    }

    /// Turns to the images that hold their data.
    fn turn_to_data(&mut self) -> (action: ImageAction)
        requires
            hashable_jobs(old(self)@.data),
        ensures
            (final(self)@, action@) == turned_to_data(old(self)@),
            final(self)@.wf(),
    {
        if self.data.len() > 0 {
            self.todo = hash_jobs(&self.data);
            self.phase = Phase::HashLookup;
            ImageAction::LookUpHashes(collect_keys(&self.todo))
        } else {
            self.finish()
        }
    }

    /// Clears up, to fail with a message.
    fn give_up(&mut self, message: String) -> (action: ImageAction)
        ensures
            (final(self)@, action@) == given_up(old(self)@, message@),
    {
        self.phase = Phase::Removing(Some(message));
        ImageAction::RemoveFiles(collect_paths(&self.files))
    }

    /// Writes the next temporary file, if there is one.
    fn write_next(&mut self, random: &str) -> (action: ImageAction)
        ensures
            (final(self)@, action@) == writing_next(old(self)@, random@),
            final(self)@.wf(),
    {
        if self.files.len() < self.todo.len() {
            assert(self@.todo[self.files.len() as int] == self.todo@[self.files.len() as int]@);
            match data_url_to_temp_file(&self.todo[self.files.len()].url, random) {
                Ok(file) => {
                    self.phase = Phase::Writing;
                    ImageAction::WriteFile(file)
                },
                Err(e) => self.give_up(prefixed("Failed to process data URL: ", &e)),
            }
        } else {
            self.phase = Phase::FileUpload;
            let files = self.files.clone();
            assert(views(files@) =~= views(self.files@));
            ImageAction::UploadFiles(files)
        }
    }

    /// Goes on after the cache was asked.
    fn take_found(&mut self, found: Vec<Option<String>>, random: &str) -> (action: ImageAction)
        requires
            old(self)@.expects(ImageEventView::Found(opt_texts(found@))),
        ensures
            (final(self)@, action@) == after_found(old(self)@, opt_texts(found@), random@),
            final(self)@.wf(),
    {
        let left = apply_found(&mut self.messages, &self.todo, &found);
        let external = match self.phase {
            Phase::UrlLookup => true,
            _ => false,
        };
        self.todo = left;
        if external {
            if self.todo.len() > 0 {
                self.phase = Phase::UrlUpload;
                ImageAction::UploadUrls(collect_urls(&self.todo))
            } else {
                self.turn_to_data()
            }
        } else if self.todo.len() > 0 {
            self.write_next(random)
        } else {
            self.finish()
        }
    }

    /// Goes on after an upload.
    fn take_upload(&mut self, outcome: Result<Vec<String>, String>) -> (action: ImageAction)
        ensures
            (final(self)@, action@) == after_upload(
                old(self)@,
                match outcome {
                    Ok(urls) => Ok(views(urls@)),
                    Err(e) => Err(e@),
                },
            ),
            final(self)@.wf(),
    {
        let external = match self.phase {
            Phase::UrlUpload => true,
            _ => false,
        };
        match outcome {
            Ok(urls) => {
                let entries = apply_uploaded(&mut self.messages, &self.todo, &urls);
                if external {
                    self.phase = Phase::UrlStore;
                    ImageAction::StoreUrls(entries, EXTERNAL_SIZE)
                } else {
                    self.phase = Phase::HashStore;
                    ImageAction::StoreHashes(entries)
                }
            },
            Err(e) => {
                if external {
                    self.phase = Phase::Over;
                    ImageAction::Fail(prefixed("Failed to upload external URL: ", &e))
                } else {
                    self.give_up(prefixed("Failed to upload temporary file: ", &e))
                }
            },
        }
    }

    /// Goes on after a file was written or not.
    fn take_written(&mut self, outcome: Result<String, String>, random: &str) -> (action:
        ImageAction)
        requires
            old(self).files.len() < old(self).todo.len(),
        ensures
            (final(self)@, action@) == after_writing(
                old(self)@,
                match outcome {
                    Ok(path) => Ok(path@),
                    Err(e) => Err(e@),
                },
                random@,
            ),
            final(self)@.wf(),
    {
        match outcome {
            Ok(path) => {
                let ghost before = self@.files;
                assert(self@.todo[self.files.len() as int] == self.todo@[self.files.len() as int]@);
                let mime_type = mime_type_for_upload(&self.todo[self.files.len()].url);
                let file = LocalFile { path, mime_type };
                self.files.push(file);
                assert(self@.files =~= before.push(file@));
                self.write_next(random)
            },
            Err(e) => {
                let reason = prefixed("Failed to write to temporary file: ", &e);
                self.give_up(prefixed("Failed to process data URL: ", &reason))
            },
        }
    }

    /// Tells whether the cache has an answer for every key.
    fn all_found(found: &Vec<Option<String>>, todo: &Vec<Job>) -> (b: bool)
        requires
            found.len() == todo.len(),
        ensures
            b == (missed(views(todo@), opt_texts(found@), todo.len() as int).len() == 0),
    {
        let ghost texts = opt_texts(found@);
        let ghost all = views(todo@);
        let mut i: usize = 0;
        while i < found.len()
            invariant
                i <= found.len(),
                found.len() == todo.len(),
                texts == opt_texts(found@),
                all == views(todo@),
                missed(all, texts, i as int).len() == 0,
            decreases found.len() - i,
        {
            assert(texts[i as int] == opt_view(found@[i as int]));
            if found[i].is_none() {
                proof {
                    lemma_missed_grows(all, texts, i + 1, todo.len() as int);
                }
                return false;
            }
            i += 1;
        }
        true
    }

    /// Tells whether an event is one that the task can take.
    pub fn accepts(&self, event: &ImageEvent) -> (b: bool)
        ensures
            b == self@.expects(event@),
    {
        match event {
            ImageEvent::Found(found) => match self.phase {
                Phase::UrlLookup => found.len() == self.todo.len() && (!Self::all_found(
                    found,
                    &self.todo,
                ) || can_hash_jobs(&self.data)),
                Phase::HashLookup => found.len() == self.todo.len(),
                _ => false,
            },
            ImageEvent::Uploaded(outcome) => match self.phase {
                Phase::UrlUpload => true,
                Phase::FileUpload => match outcome {
                    Ok(urls) => urls.len() <= self.todo.len(),
                    Err(_) => true,
                },
                _ => false,
            },
            ImageEvent::Stored => match self.phase {
                Phase::UrlStore => can_hash_jobs(&self.data),
                Phase::HashStore => true,
                _ => false,
            },
            ImageEvent::Written(_) => match self.phase {
                Phase::Writing => true,
                _ => false,
            },
            ImageEvent::Removed => match self.phase {
                Phase::Removing(_) => true,
                _ => false,
            },
        }
    }

    /// Goes on after an event, with a given random part in the name of a
    /// temporary file.
    pub fn proceed(&mut self, event: ImageEvent, random: &str) -> (action: ImageAction)
        requires
            old(self)@.wf(),
            old(self)@.expects(event@),
        ensures
            (final(self)@, action@) == after_image_event(old(self)@, event@, random@),
            final(self)@.wf(),
    {
        match event {
            ImageEvent::Found(found) => self.take_found(found, random),
            ImageEvent::Uploaded(outcome) => self.take_upload(outcome),
            ImageEvent::Stored => {
                let external = match self.phase {
                    Phase::UrlStore => true,
                    _ => false,
                };
                if external {
                    self.turn_to_data()
                } else {
                    self.phase = Phase::Removing(None);
                    ImageAction::RemoveFiles(collect_paths(&self.files))
                }
            },
            ImageEvent::Written(outcome) => self.take_written(outcome, random),
            ImageEvent::Removed => {
                let failure = match &self.phase {
                    Phase::Removing(Some(message)) => Some(message.clone()),
                    _ => None,
                };
                match failure {
                    Some(message) => {
                        self.phase = Phase::Over;
                        ImageAction::Fail(message)
                    },
                    None => self.finish(),
                }
            },
        }
    }
}

/// With more answers of the cache no fewer jobs are left.
proof fn lemma_missed_grows(todo: Seq<JobView>, found: Seq<Option<Seq<char>>>, n: int, m: int)
    requires
        0 <= n <= m,
    ensures
        missed(todo, found, n).len() <= missed(todo, found, m).len(),
    decreases m - n,
{
    if n < m {
        lemma_missed_grows(todo, found, n, m - 1);
    }
}

/// Goes on with the upload of the images of a conversation after an event.
/// Chance has a part in the names of the temporary files.
pub fn process_message_images(task: &mut ImageTask, event: ImageEvent) -> (action: ImageAction)
    requires
        old(task)@.wf(),
        old(task)@.expects(event@),
    ensures
        exists|random: Seq<char>|
            random_part(random) && (final(task)@, action@) == #[trigger] after_image_event(
                old(task)@,
                event@,
                random,
            ),
        final(task)@.wf(),
{
    let random = random_name(16);
    assert(random_part(random@));
    task.proceed(event, &random)
}

} // verus!
