//! The images of a conversation: which of them are to be uploaded, what is put
//! in their place, and the steps in which that happens.
use crate::content::{
    extract_poe_cdn_urls_from_message, is_poe_cdn_url, message_urls, on_poe_cdn,
};
use crate::data_url::{can_hash, content_hash, hash_base64_content, hashable};
use crate::text::{begins_with, same_text, starts_with, views};
use crate::types::{
    opt_texts, opt_view, ContentView, ImageUrlContent, ItemView, Message, MessageView,
    OpenAiContent, OpenAiContentItem,
};
use vstd::prelude::*;

verus! {

/// An image that is to be put on the CDN: where it stands, its URL, and the key
/// under which the cache knows it.
#[derive(Debug, PartialEq, Eq)]
pub struct Job {
    /// The index of the message.
    pub message: usize,
    /// The index of the image in the message.
    pub item: usize,
    /// The URL of the image.
    pub url: String,
    /// The URL, or the hash of the data in it.
    pub key: String,
}

/// The value of a `Job`.
#[verifier::ext_equal]
pub struct JobView {
    /// The index of the message.
    pub message: int,
    /// The index of the image in the message.
    pub item: int,
    /// The URL of the image.
    pub url: Seq<char>,
    /// The URL, or the hash of the data in it.
    pub key: Seq<char>,
}

impl View for Job {
    type V = JobView;

    open spec fn view(&self) -> JobView {
        JobView {
            message: self.message as int,
            item: self.item as int,
            url: self.url@,
            key: self.key@,
        }
    }
}

impl Clone for Job {
    fn clone(&self) -> (r: Self)
        ensures
            r@ == self@,
    {
        Job {
            message: self.message,
            item: self.item,
            url: self.url.clone(),
            key: self.key.clone(),
        }
    }
}

/// Whether an image holds its data in its URL.
pub open spec fn is_data(url: Seq<char>) -> bool {
    begins_with(url, "data:"@)
}

/// Whether an image is one of those that hold their data in the URL, or else
/// one of those that lie elsewhere than on the CDN.
pub open spec fn wanted(url: Seq<char>, data: bool) -> bool {
    if data {
        is_data(url)
    } else {
        !is_data(url) && !on_poe_cdn(url)
    }
}

/// The job for an image, under its URL as the key.
pub open spec fn job_for(message: int, item: int, url: Seq<char>) -> JobView {
    JobView { message, item, url, key: url }
}

/// The jobs in one message.
pub open spec fn jobs_in(items: Seq<ItemView>, message: int, data: bool) -> Seq<JobView>
    decreases items.len(),
{
    if items.len() == 0 {
        Seq::empty()
    } else {
        let before = jobs_in(items.drop_last(), message, data);
        match items.last() {
            ItemView::ImageUrl(url) => if wanted(url, data) {
                before.push(job_for(message, items.len() - 1, url))
            } else {
                before
            },
            ItemView::Text(_) => before,
        }
    }
}

/// The parts of a content; a plain text has none.
pub open spec fn parts_of(content: ContentView) -> Seq<ItemView> {
    match content {
        ContentView::Text(_) => Seq::empty(),
        ContentView::Multi(items) => items,
    }
}

/// The jobs in a conversation.
pub open spec fn jobs(messages: Seq<MessageView>, data: bool) -> Seq<JobView>
    decreases messages.len(),
{
    if messages.len() == 0 {
        Seq::empty()
    } else {
        jobs(messages.drop_last(), data) + jobs_in(
            parts_of(messages.last().content),
            messages.len() - 1,
            data,
        )
    }
}

/// The data of every image can be hashed.
pub open spec fn hashable_jobs(todo: Seq<JobView>) -> bool {
    forall|k: int| 0 <= k < todo.len() ==> hashable((#[trigger] todo[k]).url)
}

/// Jobs under the hashes of the data in their images as the keys.
pub open spec fn by_hash(todo: Seq<JobView>) -> Seq<JobView> {
    Seq::new(todo.len(), |k: int| JobView { key: content_hash(todo[k].url), ..todo[k] })
}

/// A conversation in which the image at one place has another URL. Nothing
/// changes where there is no image at that place.
pub open spec fn with_url(messages: Seq<MessageView>, job: JobView, url: Seq<char>) -> Seq<
    MessageView,
> {
    if 0 <= job.message < messages.len() {
        match messages[job.message].content {
            ContentView::Multi(items) => if 0 <= job.item < items.len()
                && items[job.item] is ImageUrl {
                messages.update(
                    job.message,
                    MessageView {
                        role: messages[job.message].role,
                        content: ContentView::Multi(
                            items.update(job.item, ItemView::ImageUrl(url)),
                        ),
                    },
                )
            } else {
                messages
            },
            ContentView::Text(_) => messages,
        }
    } else {
        messages
    }
}

/// Puts a URL in the place of that of an image.
fn set_url(messages: &mut Vec<Message>, job: &Job, url: String)
    ensures
        views(final(messages)@) == with_url(views(old(messages)@), job@, url@),
{
    let ghost before = views(messages@);
    if job.message < messages.len() {
        assert(before[job.message as int] == messages@[job.message as int]@);
        if let OpenAiContent::Multi(items) = &mut messages[job.message].content {
            let ghost parts = views(items@);
            if job.item < items.len() {
                assert(parts[job.item as int] == items@[job.item as int]@);
                if let OpenAiContentItem::ImageUrl { image_url } = &mut items[job.item] {
                    image_url.url = url;
                }
            }
        }
    }
    assert(views(messages@) =~~= with_url(before, job@, url@));
}

/// Collects the jobs in a conversation.
pub fn collect_jobs(messages: &Vec<Message>, data: bool) -> (found: Vec<Job>)
    ensures
        views(found@) == jobs(views(messages@), data),
{
    let ghost all = views(messages@);
    let mut found: Vec<Job> = Vec::new();
    let mut m: usize = 0;
    assert(views(found@) =~= Seq::<JobView>::empty());
    while m < messages.len()
        invariant
            m <= messages.len(),
            all == views(messages@),
            views(found@) == jobs(all.take(m as int), data),
        decreases messages.len() - m,
    {
        let ghost before = views(found@);
        assert(all.take(m + 1).drop_last() =~= all.take(m as int));
        assert(all.take(m + 1).last() == messages@[m as int]@);
        if let OpenAiContent::Multi(items) = &messages[m].content {
            let ghost parts = views(items@);
            assert(parts == parts_of(all[m as int].content));
            let mut i: usize = 0;
            assert(views(found@) =~= before + jobs_in(parts.take(0), m as int, data));
            while i < items.len()
                invariant
                    m < messages.len(),
                    i <= items.len(),
                    parts == views(items@),
                    parts == parts_of(all[m as int].content),
                    m < all.len(),
                            views(found@) == before + jobs_in(parts.take(i as int), m as int, data),
                decreases items.len() - i,
            {
                let ghost known = views(found@);
                let ghost next = parts.take(i + 1);
                assert(next.drop_last() =~= parts.take(i as int));
                assert(next.last() == items@[i as int]@);
                assert(parts_of(all[m as int].content)[i as int] == items@[i as int]@);
                if let OpenAiContentItem::ImageUrl { image_url } = &items[i] {
                    let url = &image_url.url;
                    let holds_data = starts_with(url, "data:");
                    let take = if data {
                        holds_data
                    } else {
                        !holds_data && !is_poe_cdn_url(url)
                    };
                    if take {
                        let job = Job { message: m, item: i, url: url.clone(), key: url.clone() };
                        found.push(job);
                        assert(job@ == job_for(m as int, i as int, url@));
                        assert(views(found@) =~= known.push(job@));
                        assert(known.push(job@) =~= before + jobs_in(
                            parts.take(i as int),
                            m as int,
                            data,
                        ).push(job@));
                    }
                }
                i += 1;
            }
            assert(parts.take(i as int) =~= parts);
        } else {
            assert(before + jobs_in(Seq::empty(), m as int, data) =~= before);
        }
        m += 1;
    }
    assert(all.take(m as int) =~= all);
    found
}

/// The conversation with the URLs that the cache has for the first `n` jobs.
pub open spec fn with_found(
    messages: Seq<MessageView>,
    todo: Seq<JobView>,
    found: Seq<Option<Seq<char>>>,
    n: int,
) -> Seq<MessageView>
    decreases n,
{
    if n <= 0 {
        messages
    } else {
        let before = with_found(messages, todo, found, n - 1);
        match found[n - 1] {
            Some(url) => with_url(before, todo[n - 1], url),
            None => before,
        }
    }
}

/// Those of the first `n` jobs for which the cache has nothing.
pub open spec fn missed(todo: Seq<JobView>, found: Seq<Option<Seq<char>>>, n: int) -> Seq<JobView>
    decreases n,
{
    if n <= 0 {
        Seq::empty()
    } else if found[n - 1] is None {
        missed(todo, found, n - 1).push(todo[n - 1])
    } else {
        missed(todo, found, n - 1)
    }
}

/// Puts the URLs that the cache has in their places, and returns the jobs that
/// are left.
pub fn apply_found(messages: &mut Vec<Message>, todo: &Vec<Job>, found: &Vec<Option<String>>) -> (left:
    Vec<Job>)
    requires
        found.len() == todo.len(),
    ensures
        views(final(messages)@) == with_found(
            views(old(messages)@),
            views(todo@),
            opt_texts(found@),
            todo.len() as int,
        ),
        views(left@) == missed(views(todo@), opt_texts(found@), todo.len() as int),
{
    let ghost start = views(messages@);
    let ghost all = views(todo@);
    let ghost texts = opt_texts(found@);
    let mut left: Vec<Job> = Vec::new();
    let mut i: usize = 0;
    assert(views(left@) =~= Seq::<JobView>::empty());
    while i < todo.len()
        invariant
            i <= todo.len(),
            found.len() == todo.len(),
            all == views(todo@),
            texts == opt_texts(found@),
            views(messages@) == with_found(start, all, texts, i as int),
            views(left@) == missed(all, texts, i as int),
        decreases todo.len() - i,
    {
        let ghost known = views(left@);
        assert(texts[i as int] == opt_view(found@[i as int]));
        assert(all[i as int] == todo@[i as int]@);
        match &found[i] {
            Some(url) => {
                set_url(messages, &todo[i], url.clone());
            },
            None => {
                left.push(todo[i].clone());
                assert(views(left@) =~= known.push(all[i as int]));
            },
        }
        i += 1;
    }
    left
}

/// The conversation with the first `n` of the uploaded URLs.
pub open spec fn with_uploaded(
    messages: Seq<MessageView>,
    todo: Seq<JobView>,
    urls: Seq<Seq<char>>,
    n: int,
) -> Seq<MessageView>
    decreases n,
{
    if n <= 0 {
        messages
    } else {
        with_url(with_uploaded(messages, todo, urls, n - 1), todo[n - 1], urls[n - 1])
    }
}

/// What the cache is to remember of an upload.
#[derive(Debug, PartialEq, Eq)]
pub struct CacheEntry {
    /// The URL, or the hash of the data in it.
    pub key: String,
    /// The URL on the CDN.
    pub poe_url: String,
    /// The URL that the image had.
    pub source: String,
}

/// The value of a `CacheEntry`.
#[verifier::ext_equal]
pub struct CacheEntryView {
    /// The URL, or the hash of the data in it.
    pub key: Seq<char>,
    /// The URL on the CDN.
    pub poe_url: Seq<char>,
    /// The URL that the image had.
    pub source: Seq<char>,
}

impl View for CacheEntry {
    type V = CacheEntryView;

    open spec fn view(&self) -> CacheEntryView {
        CacheEntryView { key: self.key@, poe_url: self.poe_url@, source: self.source@ }
    }
}

/// How many jobs a list of uploaded URLs serves: the shorter of the two lists
/// decides.
pub open spec fn served(todo: Seq<JobView>, urls: Seq<Seq<char>>) -> int {
    if urls.len() < todo.len() {
        urls.len() as int
    } else {
        todo.len() as int
    }
}

/// What the cache is to remember of an upload.
pub open spec fn entries_for(todo: Seq<JobView>, urls: Seq<Seq<char>>) -> Seq<CacheEntryView> {
    Seq::new(
        served(todo, urls) as nat,
        |i: int| CacheEntryView { key: todo[i].key, poe_url: urls[i], source: todo[i].url },
    )
}

/// Puts the uploaded URLs in their places, and returns what the cache is to
/// remember.
pub fn apply_uploaded(messages: &mut Vec<Message>, todo: &Vec<Job>, urls: &Vec<String>) -> (entries: Vec<
    CacheEntry,
>)
    ensures
        views(final(messages)@) == with_uploaded(
            views(old(messages)@),
            views(todo@),
            views(urls@),
            served(views(todo@), views(urls@)),
        ),
        views(entries@) == entries_for(views(todo@), views(urls@)),
{
    let ghost start = views(messages@);
    let ghost all = views(todo@);
    let ghost texts = views(urls@);
    let mut entries: Vec<CacheEntry> = Vec::new();
    let mut i: usize = 0;
    while i < todo.len() && i < urls.len()
        invariant
            i <= served(all, texts),
            all == views(todo@),
            texts == views(urls@),
            views(messages@) == with_uploaded(start, all, texts, i as int),
            entries.len() == i,
            forall|j: int|
                0 <= j < i ==> (#[trigger] entries@[j])@ == entries_for(all, texts)[j],
        decreases todo.len() - i,
    {
        assert(texts[i as int] == urls@[i as int]@);
        assert(all[i as int] == todo@[i as int]@);
        entries.push(
            CacheEntry {
                key: todo[i].key.clone(),
                poe_url: urls[i].clone(),
                source: todo[i].url.clone(),
            },
        );
        set_url(messages, &todo[i], urls[i].clone());
        i += 1;
    }
    assert(views(entries@) =~= entries_for(all, texts));
    entries
}

/// The images of the given URLs, as parts of a message.
pub open spec fn image_items(urls: Seq<Seq<char>>) -> Seq<ItemView> {
    Seq::new(urls.len(), |i: int| ItemView::ImageUrl(urls[i]))
}

/// A message with more images. A plain text becomes the first part.
pub open spec fn with_images(message: MessageView, urls: Seq<Seq<char>>) -> MessageView {
    MessageView {
        role: message.role,
        content: match message.content {
            ContentView::Text(text) => ContentView::Multi(
                seq![ItemView::Text(text)] + image_items(urls),
            ),
            ContentView::Multi(items) => ContentView::Multi(items + image_items(urls)),
        },
    }
}

/// A message with more images.
pub fn attach_images(message: &Message, urls: &Vec<String>) -> (r: Message)
    ensures
        r@ == with_images(message@, views(urls@)),
{
    let mut items: Vec<OpenAiContentItem> = match &message.content {
        OpenAiContent::Text(text) => {
            let mut items: Vec<OpenAiContentItem> = Vec::new();
            items.push(OpenAiContentItem::Text { text: text.clone() });
            assert(views(items@) =~= seq![ItemView::Text(text@)]);
            items
        },
        OpenAiContent::Multi(items) => {
            let copy = items.clone();
            assert(views(copy@) =~= views(items@));
            copy
        },
    };
    let ghost start = views(items@);
    let ghost all = image_items(views(urls@));
    let mut i: usize = 0;
    assert(views(items@) =~= start + all.take(0));
    while i < urls.len()
        invariant
            i <= urls.len(),
            all == image_items(views(urls@)),
            views(items@) == start + all.take(i as int),
        decreases urls.len() - i,
    {
        let ghost before = views(items@);
        let item = OpenAiContentItem::ImageUrl {
            image_url: ImageUrlContent { url: urls[i].clone() },
        };
        items.push(item);
        assert(views(items@) =~= before.push(item@));
        assert(views(items@) =~= start + all.take(i + 1));
        i += 1;
    }
    assert(all.take(i as int) =~= all);
    Message { role: message.role.clone(), content: OpenAiContent::Multi(items) }
}

/// The index of the last message of a role.
pub open spec fn last_of(messages: Seq<MessageView>, role: Seq<char>) -> Option<int>
    decreases messages.len(),
{
    if messages.len() == 0 {
        None
    } else if messages.last().role == role {
        Some(messages.len() - 1)
    } else {
        last_of(messages.drop_last(), role)
    }
}

/// Finds the index of the last message of a role.
fn find_last(messages: &Vec<Message>, role: &str) -> (r: Option<usize>)
    ensures
        match r {
            Some(i) => i < messages.len() && last_of(views(messages@), role@) == Some(i as int),
            None => last_of(views(messages@), role@) is None,
        },
{
    let ghost all = views(messages@);
    let mut n: usize = messages.len();
    assert(all.take(n as int) =~= all);
    while n > 0
        invariant
            n <= messages.len(),
            all == views(messages@),
            last_of(all, role@) == last_of(all.take(n as int), role@),
        decreases n,
    {
        assert(all.take(n as int).last() == messages@[n - 1]@);
        if same_text(&messages[n - 1].role, role) {
            return Some(n - 1);
        }
        assert(all.take(n as int).drop_last() =~= all.take(n - 1));
        n -= 1;
    }
    None
}

/// The conversation in which the last user message shows the images on the CDN
/// that the last answer mentions, given their URLs.
pub open spec fn with_shown(messages: Seq<MessageView>, user: int, urls: Seq<Seq<char>>) -> Seq<
    MessageView,
> {
    if urls.len() > 0 {
        messages.update(user, with_images(messages[user], urls))
    } else {
        messages
    }
}

/// The conversation in which the last user message shows the images on the CDN
/// that the last answer mentions.
pub open spec fn with_answer_images(messages: Seq<MessageView>) -> Seq<MessageView> {
    if messages.len() >= 2 {
        match (last_of(messages, "assistant"@), last_of(messages, "user"@)) {
            (Some(bot), Some(user)) => with_shown(messages, user, message_urls(messages[bot])),
            _ => messages,
        }
    } else {
        messages
    }
}

/// Adds images to a message of a conversation.
pub fn show_images(messages: &mut Vec<Message>, user: usize, urls: &Vec<String>)
    requires
        user < old(messages).len(),
    ensures
        views(final(messages)@) == with_shown(views(old(messages)@), user as int, views(urls@)),
{
    let ghost before = views(messages@);
    assert(before[user as int] == messages@[user as int]@);
    if urls.len() > 0 {
        let message = attach_images(&messages[user], urls);
        messages[user] = message;
        assert(views(messages@) =~= before.update(user as int, message@));
    }
}

/// Shows the images on the CDN that the last answer mentions in the last user
/// message.
pub fn show_answer_images(messages: &mut Vec<Message>)
    ensures
        views(final(messages)@) == with_answer_images(views(old(messages)@)),
{
    if messages.len() >= 2 {
        let bot = find_last(messages, "assistant");
        let user = find_last(messages, "user");
        if let (Some(bot), Some(user)) = (bot, user) {
            assert(views(messages@)[bot as int] == messages@[bot as int]@);
            let urls = extract_poe_cdn_urls_from_message(&messages[bot]);
            show_images(messages, user, &urls);
        }
    }
}

/// Tells whether the data of every image can be hashed.
pub fn can_hash_jobs(todo: &Vec<Job>) -> (b: bool)
    ensures
        b == hashable_jobs(views(todo@)),
{
    let ghost all = views(todo@);
    let mut i: usize = 0;
    while i < todo.len()
        invariant
            i <= todo.len(),
            all == views(todo@),
            forall|k: int| 0 <= k < i ==> hashable((#[trigger] all[k]).url),
        decreases todo.len() - i,
    {
        assert(all[i as int] == todo@[i as int]@);
        if !can_hash(&todo[i].url) {
            return false;
        }
        i += 1;
    }
    true
}

/// Puts jobs under the hashes of the data in their images.
pub fn hash_jobs(todo: &Vec<Job>) -> (r: Vec<Job>)
    requires
        hashable_jobs(views(todo@)),
    ensures
        views(r@) == by_hash(views(todo@)),
{
    let ghost all = views(todo@);
    let mut r: Vec<Job> = Vec::new();
    let mut i: usize = 0;
    while i < todo.len()
        invariant
            i <= todo.len(),
            all == views(todo@),
            hashable_jobs(all),
            r.len() == i,
            forall|k: int| 0 <= k < i ==> (#[trigger] r@[k])@ == by_hash(all)[k],
        decreases todo.len() - i,
    {
        assert(all[i as int] == todo@[i as int]@);
        let key = hash_base64_content(&todo[i].url);
        r.push(
            Job {
                message: todo[i].message,
                item: todo[i].item,
                url: todo[i].url.clone(),
                key,
            },
        );
        i += 1;
    }
    assert(views(r@) =~= by_hash(all));
    r
}

} // verus!
