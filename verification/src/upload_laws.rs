//! Which images of a conversation are uploaded, where their new URLs go, and
//! what is asked of the cache, of Poe and of the disk, told place by place.
use crate::content::{
    cdn_only, item_urls, mentioned_urls, message_urls, on_poe_cdn, present,
};
use crate::data_url::{content_hash, hashable, temp_file_for, upload_mime};
use crate::external::regex_groups;
use crate::image_task::{
    after_image_event, can_begin, keys, started, ImageActionView, ImageEventView, PhaseView,
    TaskView,
};
use crate::images::{
    image_items, is_data, jobs, jobs_in, last_of, missed, parts_of, served, wanted,
    with_answer_images, with_found, with_images, with_shown, with_uploaded, with_url,
    CacheEntryView, JobView,
};
use crate::text::words;
use crate::text_laws::{lemma_reads_at, reads_at};
use crate::types::{ContentView, ItemView, MessageView};
use vstd::prelude::*;

verus! {

/// The part at a place of a conversation.
pub open spec fn part_at(messages: Seq<MessageView>, m: int, i: int) -> Option<ItemView> {
    if 0 <= m < messages.len() && messages[m].content is Multi && 0 <= i
        < messages[m].content->Multi_0.len() {
        Some(messages[m].content->Multi_0[i])
    } else {
        None
    }
}

/// An image holds its data in its URL.
pub open spec fn holds_data(url: Seq<char>) -> bool {
    reads_at(url, "data:"@, 0)
}

/// A URL is on Poe's CDN.
pub open spec fn lies_on_cdn(url: Seq<char>) -> bool {
    reads_at(url, "https://pfst.cf2.poecdn.net"@, 0)
}

/// A place comes before another one.
pub open spec fn comes_before(a: JobView, b: JobView) -> bool {
    a.message < b.message || (a.message == b.message && a.item < b.item)
}

/// One of the jobs is for the image at a place.
pub open spec fn is_taken(todo: Seq<JobView>, m: int, i: int) -> bool {
    exists|k: int| 0 <= k < todo.len() && (#[trigger] todo[k]).message == m && todo[k].item == i
}

/// What begins a URL, by character.
pub proof fn urls_are_told_by_their_beginning(url: Seq<char>)
    ensures
        is_data(url) <==> holds_data(url),
        on_poe_cdn(url) <==> lies_on_cdn(url),
{
    assert(url.skip(0) =~= url);
    lemma_reads_at(url, "data:"@, 0);
    lemma_reads_at(url, "https://pfst.cf2.poecdn.net"@, 0);
}

/// The jobs in one message.
proof fn lemma_jobs_of_message(items: Seq<ItemView>, message: int, data: bool)
    ensures
        forall|k: int|
            #![trigger jobs_in(items, message, data)[k]]
            0 <= k < jobs_in(items, message, data).len() ==> {
                let job = jobs_in(items, message, data)[k];
                &&& job.message == message
                &&& 0 <= job.item < items.len()
                &&& items[job.item] == ItemView::ImageUrl(job.url)
                &&& job.key == job.url
                &&& wanted(job.url, data)
            },
        forall|k: int, l: int|
            #![trigger jobs_in(items, message, data)[k], jobs_in(items, message, data)[l]]
            0 <= k < l < jobs_in(items, message, data).len() ==> jobs_in(
                items,
                message,
                data,
            )[k].item < jobs_in(items, message, data)[l].item,
        forall|i: int|
            0 <= i < items.len() && (#[trigger] items[i]) is ImageUrl && wanted(
                items[i]->ImageUrl_0,
                data,
            ) ==> is_taken(jobs_in(items, message, data), message, i),
    decreases items.len(),
{
    if items.len() > 0 {
        let before = items.drop_last();
        lemma_jobs_of_message(before, message, data);
        let known = jobs_in(before, message, data);
        let all = jobs_in(items, message, data);
        assert forall|i: int| 0 <= i < before.len() implies before[i] == #[trigger] items[i] by {}
        assert forall|k: int| 0 <= k < known.len() implies all[k] == #[trigger] known[k] by {}
        assert forall|k: int| #![trigger all[k]] 0 <= k < all.len() implies {
            &&& all[k].message == message
            &&& 0 <= all[k].item < items.len()
            &&& items[all[k].item] == ItemView::ImageUrl(all[k].url)
            &&& all[k].key == all[k].url
            &&& wanted(all[k].url, data)
        } by {
            if k < known.len() {
                assert(all[k] == known[k]);
            }
        }
        assert forall|k: int, l: int|
            #![trigger all[k], all[l]]
            0 <= k < l < all.len() implies all[k].item < all[l].item by {
            assert(all[k] == known[k]);
            if l < known.len() {
                assert(all[l] == known[l]);
            }
        }
        assert forall|i: int|
            0 <= i < items.len() && (#[trigger] items[i]) is ImageUrl && wanted(
                items[i]->ImageUrl_0,
                data,
            ) implies is_taken(all, message, i) by {
            if i < before.len() {
                let k = choose|k: int|
                    0 <= k < known.len() && (#[trigger] known[k]).message == message
                        && known[k].item == i;
                assert(all[k] == known[k]);
            } else {
                assert(all[all.len() - 1].item == i);
            }
        }
    }
}

/// There is a job for every image that holds its data, or for every other one
/// that is not on the CDN yet, and for nothing else: in the order of the
/// conversation, each with the URL at its place.
pub proof fn images_to_upload_are_found(messages: Seq<MessageView>, data: bool)
    ensures
        ({
            let todo = jobs(messages, data);
            &&& forall|k: int|
                0 <= k < todo.len() ==> {
                    let job = #[trigger] todo[k];
                    &&& part_at(messages, job.message, job.item) == Some(
                        ItemView::ImageUrl(job.url),
                    )
                    &&& job.key == job.url
                    &&& holds_data(job.url) == data
                    &&& data || !lies_on_cdn(job.url)
                }
            &&& forall|k: int, l: int|
                0 <= k < l < todo.len() ==> comes_before(#[trigger] todo[k], #[trigger] todo[l])
            &&& forall|m: int, i: int|
                ({
                    let part = #[trigger] part_at(messages, m, i);
                    part is Some && part->0 is ImageUrl && holds_data(part->0->ImageUrl_0) == data
                        && (data || !lies_on_cdn(part->0->ImageUrl_0))
                }) ==> is_taken(todo, m, i)
        }),
    decreases messages.len(),
{
    assert forall|url: Seq<char>| #[trigger]
        wanted(url, data) == (holds_data(url) == data && (data || !lies_on_cdn(url))) by {
        urls_are_told_by_their_beginning(url);
    }
    if messages.len() > 0 {
        let before = messages.drop_last();
        let last = messages.len() - 1;
        let items = parts_of(messages.last().content);
        images_to_upload_are_found(before, data);
        lemma_jobs_of_message(items, last, data);
        let known = jobs(before, data);
        let more = jobs_in(items, last, data);
        let all = jobs(messages, data);
        assert(all == known + more);
        assert forall|m: int, i: int| m < last implies part_at(before, m, i) == #[trigger] part_at(
            messages,
            m,
            i,
        ) by {
            if 0 <= m {
                assert(before[m] == messages[m]);
            }
        }
        assert forall|k: int| 0 <= k < all.len() implies {
            let job = #[trigger] all[k];
            &&& part_at(messages, job.message, job.item) == Some(ItemView::ImageUrl(job.url))
            &&& job.key == job.url
            &&& holds_data(job.url) == data
            &&& data || !lies_on_cdn(job.url)
        } by {
            if k < known.len() {
                assert(all[k] == known[k]);
                assert(part_at(before, all[k].message, all[k].item) is Some);
            } else {
                assert(all[k] == more[k - known.len()]);
                assert(wanted(all[k].url, data));
            }
        }
        assert forall|k: int, l: int| 0 <= k < l < all.len() implies comes_before(
            #[trigger] all[k],
            #[trigger] all[l],
        ) by {
            if l < known.len() {
                assert(all[k] == known[k] && all[l] == known[l]);
            } else if k < known.len() {
                assert(all[k] == known[k]);
                assert(part_at(before, all[k].message, all[k].item) is Some);
                assert(all[l] == more[l - known.len()]);
            } else {
                assert(all[k] == more[k - known.len()] && all[l] == more[l - known.len()]);
            }
        }
        assert forall|m: int, i: int|
            ({
                let part = #[trigger] part_at(messages, m, i);
                part is Some && part->0 is ImageUrl && holds_data(part->0->ImageUrl_0) == data && (
                data || !lies_on_cdn(part->0->ImageUrl_0))
            }) implies is_taken(all, m, i) by {
            if m < last {
                assert(part_at(before, m, i) == part_at(messages, m, i));
                let k = choose|k: int|
                    0 <= k < known.len() && (#[trigger] known[k]).message == m
                        && known[k].item == i;
                assert(all[k] == known[k]);
            } else {
                assert(items[i] == part_at(messages, m, i)->0);
                assert(wanted(items[i]->ImageUrl_0, data));
                let k = choose|k: int|
                    0 <= k < more.len() && (#[trigger] more[k]).message == last
                        && more[k].item == i;
                assert(all[known.len() + k] == more[k]);
            }
        }
    }
}

/// Jobs are for images of a conversation, no two for the same one.
pub open spec fn for_images(messages: Seq<MessageView>, todo: Seq<JobView>) -> bool {
    &&& forall|k: int|
        0 <= k < todo.len() ==> ({
            let part = part_at(messages, (#[trigger] todo[k]).message, todo[k].item);
            part is Some && part->0 is ImageUrl
        })
    &&& forall|k: int, l: int|
        0 <= k < l < todo.len() ==> (#[trigger] todo[k]).message != (#[trigger] todo[l]).message
            || todo[k].item != todo[l].item
}

/// The URLs that there are for the first jobs stand at the places of the jobs,
/// and nothing else of a conversation has changed.
pub open spec fn put_in_place(
    before: Seq<MessageView>,
    after: Seq<MessageView>,
    todo: Seq<JobView>,
    urls: Seq<Option<Seq<char>>>,
) -> bool {
    &&& after.len() == before.len()
    &&& forall|m: int|
        0 <= m < before.len() ==> {
            &&& (#[trigger] after[m]).role == before[m].role
            &&& before[m].content is Text ==> after[m].content == before[m].content
            &&& before[m].content is Multi ==> after[m].content is Multi
                && after[m].content->Multi_0.len() == before[m].content->Multi_0.len()
        }
    &&& forall|k: int|
        0 <= k < urls.len() && (#[trigger] urls[k]) is Some ==> part_at(
            after,
            todo[k].message,
            todo[k].item,
        ) == Some(ItemView::ImageUrl(urls[k]->0))
    &&& forall|m: int, i: int|
        (forall|k: int|
            0 <= k < urls.len() && (#[trigger] urls[k]) is Some ==> todo[k].message != m
                || todo[k].item != i) ==> #[trigger] part_at(after, m, i) == part_at(before, m, i)
}

/// The URLs that the cache has are put in place.
proof fn lemma_put_found(
    messages: Seq<MessageView>,
    todo: Seq<JobView>,
    found: Seq<Option<Seq<char>>>,
    n: int,
)
    requires
        for_images(messages, todo),
        0 <= n <= found.len(),
        n <= todo.len(),
    ensures
        put_in_place(messages, with_found(messages, todo, found, n), todo, found.take(n)),
    decreases n,
{
    let urls = found.take(n);
    let after = with_found(messages, todo, found, n);
    if n > 0 {
        let before = with_found(messages, todo, found, n - 1);
        let known = found.take(n - 1);
        lemma_put_found(messages, todo, found, n - 1);
        assert forall|k: int| 0 <= k < n - 1 implies known[k] == #[trigger] urls[k] by {}
        let m0 = todo[n - 1].message;
        let i0 = todo[n - 1].item;
        assert(part_at(before, m0, i0) is Some && part_at(before, m0, i0)->0 is ImageUrl) by {
            assert(part_at(messages, m0, i0) is Some);
            assert(before[m0].role == messages[m0].role);
            assert forall|k: int| 0 <= k < known.len() && (#[trigger] known[k]) is Some implies
                todo[k].message != m0 || todo[k].item != i0 by {}
            assert(part_at(before, m0, i0) == part_at(messages, m0, i0));
        }
        assert(urls[n - 1] == found[n - 1]);
        if found[n - 1] is Some {
            let url = found[n - 1]->0;
            assert(after == with_url(before, todo[n - 1], url));
            assert(part_at(after, m0, i0) == Some(ItemView::ImageUrl(url)));
            assert forall|m: int, i: int| m != m0 || i != i0 implies #[trigger] part_at(after, m, i)
                == part_at(before, m, i) by {}
            assert forall|m: int| 0 <= m < messages.len() implies {
                &&& (#[trigger] after[m]).role == messages[m].role
                &&& messages[m].content is Text ==> after[m].content == messages[m].content
                &&& messages[m].content is Multi ==> after[m].content is Multi
                    && after[m].content->Multi_0.len() == messages[m].content->Multi_0.len()
            } by {
                assert(before[m].role == messages[m].role);
            }
        } else {
            assert(after == before);
        }
        assert forall|k: int| 0 <= k < urls.len() && (#[trigger] urls[k]) is Some implies part_at(
            after,
            todo[k].message,
            todo[k].item,
        ) == Some(ItemView::ImageUrl(urls[k]->0)) by {
            if k < n - 1 {
                assert(known[k] is Some);
                assert(part_at(before, todo[k].message, todo[k].item) is Some);
            }
        }
        assert forall|m: int, i: int|
            (forall|k: int|
                0 <= k < urls.len() && (#[trigger] urls[k]) is Some ==> todo[k].message != m
                    || todo[k].item != i) implies #[trigger] part_at(after, m, i) == part_at(
            messages,
            m,
            i,
        ) by {
            assert forall|k: int| 0 <= k < known.len() && (#[trigger] known[k]) is Some implies
                todo[k].message != m || todo[k].item != i by {
                assert(urls[k] is Some);
            }
            assert(part_at(before, m, i) == part_at(messages, m, i));
        }
    } else {
        assert(after == messages);
    }
}

/// The URLs of an upload as URLs that there are.
pub open spec fn given(urls: Seq<Seq<char>>) -> Seq<Option<Seq<char>>> {
    Seq::new(urls.len(), |k: int| Some(urls[k]))
}

/// Uploaded URLs are put in place as found ones are.
proof fn lemma_uploaded_as_found(
    messages: Seq<MessageView>,
    todo: Seq<JobView>,
    urls: Seq<Seq<char>>,
    n: int,
)
    requires
        n <= urls.len(),
    ensures
        with_uploaded(messages, todo, urls, n) == with_found(messages, todo, given(urls), n),
    decreases n,
{
    if n > 0 {
        lemma_uploaded_as_found(messages, todo, urls, n - 1);
    }
}

/// The places in the list of the jobs for which the cache has nothing.
pub open spec fn unknown_places(found: Seq<Option<Seq<char>>>, n: nat) -> Seq<int> {
    Seq::new(n, |k: int| k).filter(|k: int| found[k] is None)
}

/// The jobs for which the cache has nothing.
proof fn lemma_unknown(todo: Seq<JobView>, found: Seq<Option<Seq<char>>>, n: nat)
    ensures
        missed(todo, found, n as int).len() == unknown_places(found, n).len(),
        forall|k: int|
            0 <= k < unknown_places(found, n).len() ==> #[trigger] missed(todo, found, n as int)[k]
                == todo[unknown_places(found, n)[k]] && 0 <= unknown_places(found, n)[k] < n,
    decreases n,
{
    reveal(Seq::filter);
    if n > 0 {
        let m = (n - 1) as nat;
        lemma_unknown(todo, found, m);
        let all = Seq::new(n, |k: int| k);
        assert(all.drop_last() =~= Seq::new(m, |k: int| k));
        assert(all.last() == m);
        let known = missed(todo, found, m as int);
        assert forall|k: int| 0 <= k < unknown_places(found, n).len() implies #[trigger] missed(
            todo,
            found,
            n as int,
        )[k] == todo[unknown_places(found, n)[k]] && 0 <= unknown_places(found, n)[k] < n by {
            if k < known.len() {
                assert(missed(todo, found, n as int)[k] == known[k]);
                assert(unknown_places(found, n)[k] == unknown_places(found, m)[k]);
            }
        }
    }
}

/// A list of texts holds one for each job, in order.
pub open spec fn one_for_each(
    todo: Seq<JobView>,
    texts: Seq<Seq<char>>,
    of: spec_fn(JobView,
) -> Seq<char>) -> bool {
    texts.len() == todo.len() && forall|k: int|
        0 <= k < todo.len() ==> (#[trigger] texts[k]) == of(todo[k])
}

/// The jobs for images that hold their data, under the hashes of the data.
pub open spec fn under_hashes(data: Seq<JobView>, todo: Seq<JobView>) -> bool {
    todo.len() == data.len() && forall|k: int|
        0 <= k < data.len() ==> (#[trigger] todo[k]) == (JobView {
            message: data[k].message,
            item: data[k].item,
            url: data[k].url,
            key: content_hash(data[k].url),
        })
}

/// A task begins with the images that lie elsewhere: the cache is asked for
/// their URLs, one by one. Without such images it is asked for the hashes of the
/// data in the images that hold it, and without either the task is over.
pub proof fn uploads_begin_with_the_cache(messages: Seq<MessageView>)
    ensures
        ({
            let external = jobs(messages, false);
            let data = jobs(messages, true);
            let (t, action) = started(messages);
            &&& t.files.len() == 0
            &&& t.data == data
            &&& external.len() > 0 ==> {
                &&& t.phase is UrlLookup && t.todo == external && t.messages == messages
                &&& action is LookUpUrls
                &&& one_for_each(external, action->LookUpUrls_0, |job: JobView| job.url)
            }
            &&& external.len() == 0 && data.len() > 0 ==> {
                &&& t.phase is HashLookup && t.messages == messages
                &&& under_hashes(data, t.todo)
                &&& action is LookUpHashes
                &&& one_for_each(
                    data,
                    action->LookUpHashes_0,
                    |job: JobView| content_hash(job.url),
                )
            }
            &&& external.len() == 0 && data.len() == 0 ==> {
                &&& t.phase is Over && action is Finish
                &&& t.messages == with_answer_images(messages)
            }
        }),
{
    images_to_upload_are_found(messages, false);
    let external = jobs(messages, false);
    assert forall|k: int| 0 <= k < external.len() implies (#[trigger] keys(external)[k])
        == external[k].url by {}
}

/// What the cache knows is put in place, and what it does not know is uploaded:
/// URLs are handed to Poe one by one, data are written to files one after the
/// other.
pub proof fn only_the_unknown_is_uploaded(
    t: TaskView,
    found: Seq<Option<Seq<char>>>,
    random: Seq<char>,
)
    requires
        t.waits_for(ImageEventView::Found(found)),
        for_images(t.messages, t.todo),
    ensures
        ({
            let (next, action) = after_image_event(t, ImageEventView::Found(found), random);
            let places = unknown_places(found, t.todo.len());
            &&& next.data == t.data && next.files == t.files
            &&& places.len() > 0 ==> {
                &&& put_in_place(t.messages, next.messages, t.todo, found)
                &&& next.todo.len() == places.len()
                &&& forall|k: int|
                    0 <= k < places.len() ==> (#[trigger] next.todo[k]) == t.todo[places[k]]
                &&& t.phase is UrlLookup ==> next.phase is UrlUpload && action is UploadUrls
                    && one_for_each(next.todo, action->UploadUrls_0, |job: JobView| job.url)
                &&& t.phase is HashLookup && t.files.len() == 0 ==> {
                    let file = temp_file_for(t.todo[places[0]].url, random);
                    &&& file is Ok ==> next.phase is Writing && action
                        == ImageActionView::WriteFile(file->Ok_0)
                    &&& file is Err ==> next.phase == PhaseView::Removing(
                        Some("Failed to process data URL: "@ + file->Err_0),
                    ) && action is RemoveFiles && action->RemoveFiles_0.len() == 0
                }
            }
            &&& places.len() == 0 && (t.phase is HashLookup || t.data.len() == 0) ==> {
                &&& next.phase is Over && action is Finish
                &&& exists|x: Seq<MessageView>| #[trigger]
                    put_in_place(t.messages, x, t.todo, found) && next.messages
                        == with_answer_images(x)
            }
            &&& places.len() == 0 && t.phase is UrlLookup && t.data.len() > 0 ==> {
                &&& put_in_place(t.messages, next.messages, t.todo, found)
                &&& next.phase is HashLookup && action is LookUpHashes
                &&& under_hashes(t.data, next.todo)
                &&& one_for_each(
                    t.data,
                    action->LookUpHashes_0,
                    |job: JobView| content_hash(job.url),
                )
            }
        }),
{
    let n = t.todo.len();
    lemma_put_found(t.messages, t.todo, found, n as int);
    assert(found.take(n as int) =~= found);
    lemma_unknown(t.todo, found, n);
    let x = with_found(t.messages, t.todo, found, n as int);
    assert(put_in_place(t.messages, x, t.todo, found));
    let left = missed(t.todo, found, n as int);
    let places = unknown_places(found, n);
    if places.len() > 0 {
        assert(left[0] == t.todo[places[0]]);
    }
}

/// The URLs that an upload gives back are put in place, the first at the place
/// of the first job and so on, and the cache is told of each of them. A failed
/// upload changes nothing, and its text is passed on.
pub proof fn uploaded_urls_reach_their_images(
    t: TaskView,
    urls: Seq<Seq<char>>,
    e: Seq<char>,
    random: Seq<char>,
)
    requires
        t.phase is UrlUpload || t.phase is FileUpload,
        for_images(t.messages, t.todo),
    ensures
        ({
            let n = if urls.len() < t.todo.len() {
                urls.len()
            } else {
                t.todo.len()
            };
            let (next, action) = after_image_event(t, ImageEventView::Uploaded(Ok(urls)), random);
            let entries = if t.phase is UrlUpload {
                action->StoreUrls_0
            } else {
                action->StoreHashes_0
            };
            &&& put_in_place(t.messages, next.messages, t.todo, given(urls).take(n as int))
            &&& next.todo == t.todo && next.data == t.data && next.files == t.files
            &&& t.phase is UrlUpload ==> next.phase is UrlStore && action is StoreUrls
                && action->StoreUrls_1 == 1048576
            &&& t.phase is FileUpload ==> next.phase is HashStore && action is StoreHashes
            &&& entries.len() == n
            &&& forall|k: int|
                0 <= k < n ==> (#[trigger] entries[k]) == (CacheEntryView {
                    key: t.todo[k].key,
                    poe_url: urls[k],
                    source: t.todo[k].url,
                })
        }),
        ({
            let (next, action) = after_image_event(t, ImageEventView::Uploaded(Err(e)), random);
            &&& next.messages == t.messages
            &&& t.phase is UrlUpload ==> next.phase is Over && action == ImageActionView::Fail(
                "Failed to upload external URL: "@ + e,
            )
            &&& t.phase is FileUpload ==> {
                &&& next.phase == PhaseView::Removing(
                    Some("Failed to upload temporary file: "@ + e),
                )
                &&& action is RemoveFiles
                &&& action->RemoveFiles_0.len() == t.files.len()
                &&& forall|k: int|
                    0 <= k < t.files.len() ==> (#[trigger] action->RemoveFiles_0[k])
                        == t.files[k].path
            }
        }),
{
    let n = served(t.todo, urls);
    lemma_uploaded_as_found(t.messages, t.todo, urls, n);
    lemma_put_found(t.messages, t.todo, given(urls), n);
}

/// After the cache was told of URLs the task turns to the data; after it was
/// told of hashes the files are removed, and the task ends well.
pub proof fn stored_uploads_lead_on(t: TaskView, random: Seq<char>)
    requires
        t.phase is UrlStore || t.phase is HashStore,
    ensures
        ({
            let (next, action) = after_image_event(t, ImageEventView::Stored, random);
            &&& next.data == t.data && next.files == t.files
            &&& t.phase is UrlStore && t.data.len() > 0 ==> {
                &&& next.messages == t.messages
                &&& next.phase is HashLookup && action is LookUpHashes
                &&& under_hashes(t.data, next.todo)
                &&& one_for_each(
                    t.data,
                    action->LookUpHashes_0,
                    |job: JobView| content_hash(job.url),
                )
            }
            &&& t.phase is UrlStore && t.data.len() == 0 ==> {
                &&& next.messages == with_answer_images(t.messages)
                &&& next.phase is Over && action is Finish
            }
            &&& t.phase is HashStore ==> {
                &&& next.messages == t.messages
                &&& next.phase == PhaseView::Removing(None)
                &&& action is RemoveFiles
                &&& action->RemoveFiles_0.len() == t.files.len()
                &&& forall|k: int|
                    0 <= k < t.files.len() ==> (#[trigger] action->RemoveFiles_0[k])
                        == t.files[k].path
            }
        }),
{
}

/// Files are written one after the other, each for the next of the jobs, and
/// uploaded together when all are written, each with the MIME type of its image.
/// A failure to write removes what was written before.
pub proof fn files_are_written_in_turn(
    t: TaskView,
    path: Seq<char>,
    e: Seq<char>,
    random: Seq<char>,
)
    requires
        t.phase is Writing,
        t.wf(),
    ensures
        ({
            let (next, action) = after_image_event(t, ImageEventView::Written(Ok(path)), random);
            let n = t.files.len() as int;
            let file = temp_file_for(t.todo[n + 1].url, random);
            &&& next.messages == t.messages && next.todo == t.todo && next.data == t.data
            &&& next.files.len() == n + 1
            &&& forall|k: int| 0 <= k < n ==> (#[trigger] next.files[k]) == t.files[k]
            &&& next.files[n].path == path
            &&& next.files[n].mime_type == upload_mime(t.todo[n].url)
            &&& n + 1 == t.todo.len() ==> next.phase is FileUpload && action
                == ImageActionView::UploadFiles(next.files)
            &&& n + 1 < t.todo.len() && file is Ok ==> next.phase is Writing && action
                == ImageActionView::WriteFile(file->Ok_0)
            &&& n + 1 < t.todo.len() && file is Err ==> {
                &&& next.phase == PhaseView::Removing(
                    Some("Failed to process data URL: "@ + file->Err_0),
                )
                &&& action is RemoveFiles
                &&& action->RemoveFiles_0.len() == n + 1
                &&& forall|k: int|
                    0 <= k <= n ==> (#[trigger] action->RemoveFiles_0[k]) == next.files[k].path
            }
        }),
        ({
            let (next, action) = after_image_event(t, ImageEventView::Written(Err(e)), random);
            &&& next.messages == t.messages && next.files == t.files
            &&& next.phase == PhaseView::Removing(
                Some(
                    "Failed to process data URL: "@ + ("Failed to write to temporary file: "@ + e),
                ),
            )
            &&& action is RemoveFiles
            &&& action->RemoveFiles_0.len() == t.files.len()
            &&& forall|k: int|
                0 <= k < t.files.len() ==> (#[trigger] action->RemoveFiles_0[k]) == t.files[k].path
        }),
{
}

/// When the files are gone the task fails with the text that it has kept, or
/// ends well where it has kept none.
pub proof fn removed_files_end_the_task(t: TaskView, random: Seq<char>, message: Seq<char>)
    ensures
        t.phase == PhaseView::Removing(Some(message)) ==> after_image_event(
            t,
            ImageEventView::Removed,
            random,
        ) == (TaskView { phase: PhaseView::Over, ..t }, ImageActionView::Fail(message)),
        t.phase == PhaseView::Removing(None) ==> after_image_event(
            t,
            ImageEventView::Removed,
            random,
        ) == (
            TaskView {
                messages: with_answer_images(t.messages),
                phase: PhaseView::Over,
                ..t
            },
            ImageActionView::Finish,
        ),
{
}

/// The last message of a role.
pub open spec fn is_last_of(messages: Seq<MessageView>, role: Seq<char>, k: int) -> bool {
    &&& 0 <= k < messages.len()
    &&& messages[k].role == role
    &&& forall|j: int| k < j < messages.len() ==> (#[trigger] messages[j]).role != role
}

/// The last message of a role, by index.
proof fn lemma_last(messages: Seq<MessageView>, role: Seq<char>)
    ensures
        match last_of(messages, role) {
            Some(k) => is_last_of(messages, role, k),
            None => forall|j: int|
                0 <= j < messages.len() ==> (#[trigger] messages[j]).role != role,
        },
    decreases messages.len(),
{
    if messages.len() > 0 {
        let before = messages.drop_last();
        lemma_last(before, role);
        assert forall|j: int| 0 <= j < before.len() implies before[j]
            == #[trigger] messages[j] by {}
    }
}

/// The parts of a content, a plain text being one part.
pub open spec fn own_parts(content: ContentView) -> Seq<ItemView> {
    match content {
        ContentView::Text(text) => seq![ItemView::Text(text)],
        ContentView::Multi(items) => items,
    }
}

/// The last user message shows, behind what it holds itself, every image on the
/// CDN that the last answer mentions, in order. Nothing else changes, and
/// nothing at all where there is no answer, no user message or no such image.
pub proof fn images_of_the_last_answer_are_shown(
    messages: Seq<MessageView>,
    bot: int,
    user: int,
)
    ensures
        ({
            let after = with_answer_images(messages);
            let urls = message_urls(messages[bot]);
            let own = own_parts(messages[user].content);
            &&& is_last_of(messages, "assistant"@, bot) && is_last_of(messages, "user"@, user)
                && urls.len() > 0 ==> {
                &&& after.len() == messages.len()
                &&& forall|m: int|
                    0 <= m < messages.len() && m != user ==> (#[trigger] after[m]) == messages[m]
                &&& after[user].role == messages[user].role
                &&& after[user].content is Multi
                &&& after[user].content->Multi_0.len() == own.len() + urls.len()
                &&& forall|i: int|
                    0 <= i < own.len() ==> (#[trigger] after[user].content->Multi_0[i])
                        == own[i]
                &&& forall|k: int|
                    0 <= k < urls.len() ==> after[user].content->Multi_0[own.len() + k]
                        == ItemView::ImageUrl(#[trigger] urls[k])
            }
            &&& is_last_of(messages, "assistant"@, bot) && urls.len() == 0 ==> after == messages
        }),
        (forall|m: int| 0 <= m < messages.len() ==> (#[trigger] messages[m]).role != "assistant"@)
            ==> with_answer_images(messages) == messages,
        (forall|m: int| 0 <= m < messages.len() ==> (#[trigger] messages[m]).role != "user"@)
            ==> with_answer_images(messages) == messages,
{
    reveal_strlit("assistant");
    reveal_strlit("user");
    lemma_last(messages, "assistant"@);
    lemma_last(messages, "user"@);
    if let Some(k) = last_of(messages, "assistant"@) {
        if is_last_of(messages, "assistant"@, bot) {
            if k < bot {
                assert(messages[bot].role != "assistant"@);
            } else if bot < k {
                assert(messages[k].role != "assistant"@);
            }
        }
    }
    if let Some(k) = last_of(messages, "user"@) {
        if is_last_of(messages, "user"@, user) {
            if k < user {
                assert(messages[user].role != "user"@);
            } else if user < k {
                assert(messages[k].role != "user"@);
            }
        }
    }
    let urls = message_urls(messages[bot]);
    if is_last_of(messages, "assistant"@, bot) && is_last_of(messages, "user"@, user) {
        assert("assistant"@.len() != "user"@.len());
        assert(bot != user);
        assert(messages.len() >= 2);
        assert(with_answer_images(messages) == with_shown(messages, user, urls));
        if urls.len() > 0 {
            let items = with_answer_images(messages)[user].content->Multi_0;
            assert(items =~= own_parts(messages[user].content) + image_items(urls));
        }
    }
}

/// The URLs on the CDN among others.
pub open spec fn cdn_among(urls: Seq<Seq<char>>) -> Seq<Seq<char>> {
    urls.filter(|url: Seq<char>| lies_on_cdn(url))
}

/// Those of the addresses that are on the CDN, in order.
proof fn lemma_cdn_among(urls: Seq<Seq<char>>)
    ensures
        cdn_only(urls) == cdn_among(urls),
    decreases urls.len(),
{
    reveal(Seq::filter);
    if urls.len() > 0 {
        lemma_cdn_among(urls.drop_last());
        urls_are_told_by_their_beginning(urls.last());
    }
}

/// The groups that took part in their matches.
pub open spec fn taking_part(groups: Seq<Option<Seq<char>>>) -> Seq<Seq<char>> {
    groups.filter(|g: Option<Seq<char>>| g is Some).map_values(|g: Option<Seq<char>>| g->0)
}

/// The groups that took part, in order.
proof fn lemma_taking_part(groups: Seq<Option<Seq<char>>>)
    ensures
        present(groups) == taking_part(groups),
    decreases groups.len(),
{
    reveal(Seq::filter);
    if groups.len() > 0 {
        lemma_taking_part(groups.drop_last());
    }
    assert(present(groups) =~= taking_part(groups));
}

/// A text mentions the URLs of its Markdown images and the words that are URLs,
/// as far as they are on the CDN, in order.
pub proof fn texts_mention_images_and_words(groups: Seq<Option<Seq<char>>>, text: Seq<char>)
    ensures
        mentioned_urls(groups, text) == cdn_among(taking_part(groups)) + cdn_among(words(text)),
        message_urls(MessageView { role: text, content: ContentView::Text(text) })
            == mentioned_urls(regex_groups(r"!\[.*?\]\((https?://[^\s)]+)\)"@, text), text),
{
    lemma_taking_part(groups);
    lemma_cdn_among(present(groups));
    lemma_cdn_among(words(text));
}

/// The URLs in a message of parts are those of its first parts and then those
/// of the others. An image gives its URL where that is on the CDN, and a text
/// part gives what it gives as a plain content. The role has no influence.
pub proof fn parts_mention_urls_in_order(
    a: Seq<ItemView>,
    b: Seq<ItemView>,
    url: Seq<char>,
    text: Seq<char>,
    role: Seq<char>,
    other: Seq<char>,
)
    ensures
        message_urls(MessageView { role, content: ContentView::Multi(a + b) }) == message_urls(
            MessageView { role: other, content: ContentView::Multi(a) },
        ) + message_urls(MessageView { role: other, content: ContentView::Multi(b) }),
        message_urls(
            MessageView { role, content: ContentView::Multi(seq![ItemView::ImageUrl(url)]) },
        ) == (if lies_on_cdn(url) {
            seq![url]
        } else {
            Seq::empty()
        }),
        message_urls(MessageView { role, content: ContentView::Multi(seq![ItemView::Text(text)]) })
            == message_urls(MessageView { role: other, content: ContentView::Text(text) }),
    decreases b.len(),
{
    urls_are_told_by_their_beginning(url);
    let image = seq![ItemView::ImageUrl(url)];
    assert(image.drop_last() =~= Seq::<ItemView>::empty());
    assert(item_urls(image.drop_last()) =~= Seq::<Seq<char>>::empty());
    assert(item_urls(image) =~= if lies_on_cdn(url) {
        seq![url]
    } else {
        Seq::empty()
    });
    let part = seq![ItemView::Text(text)];
    assert(part.drop_last() =~= Seq::<ItemView>::empty());
    assert(item_urls(part.drop_last()) =~= Seq::<Seq<char>>::empty());
    assert(item_urls(part) =~= crate::content::markdown_urls(text));
    if b.len() == 0 {
        assert(a + b =~= a);
        assert(item_urls(a) + item_urls(b) =~= item_urls(a));
    } else {
        parts_mention_urls_in_order(a, b.drop_last(), url, text, role, other);
        assert((a + b).drop_last() =~= a + b.drop_last());
        assert((a + b).last() == b.last());
        assert(item_urls(a + b) =~= item_urls(a) + item_urls(b));
    }
}

/// A URL is put at a place only where there is an image, and nothing else
/// changes.
pub proof fn urls_are_put_on_images_only(messages: Seq<MessageView>, job: JobView, url: Seq<char>)
    ensures
        ({
            let after = with_url(messages, job, url);
            let part = part_at(messages, job.message, job.item);
            &&& after.len() == messages.len()
            &&& forall|m: int|
                0 <= m < messages.len() ==> (#[trigger] after[m]).role == messages[m].role
            &&& forall|m: int|
                0 <= m < messages.len() && m != job.message ==> (#[trigger] after[m]) == messages[m]
            &&& part is Some && part->0 is ImageUrl ==> part_at(after, job.message, job.item)
                == Some(ItemView::ImageUrl(url))
            &&& !(part is Some && part->0 is ImageUrl) ==> after == messages
            &&& forall|m: int, i: int|
                m != job.message || i != job.item ==> #[trigger] part_at(after, m, i) == part_at(
                    messages,
                    m,
                    i,
                )
        }),
{
}

/// The URLs that the cache has are put in place, and the jobs that are left are
/// those for which it has none, in order.
pub proof fn found_urls_are_put_in_place(
    messages: Seq<MessageView>,
    todo: Seq<JobView>,
    found: Seq<Option<Seq<char>>>,
)
    requires
        for_images(messages, todo),
        found.len() == todo.len(),
    ensures
        put_in_place(
            messages,
            with_found(messages, todo, found, todo.len() as int),
            todo,
            found,
        ),
        ({
            let left = missed(todo, found, todo.len() as int);
            let places = unknown_places(found, todo.len());
            &&& left.len() == places.len()
            &&& forall|k: int| 0 <= k < places.len() ==> (#[trigger] left[k]) == todo[places[k]]
        }),
{
    let n = todo.len();
    lemma_put_found(messages, todo, found, n as int);
    assert(found.take(n as int) =~= found);
    lemma_unknown(todo, found, n);
}

/// Which events a task can take: the cache has to answer for every job, files
/// come back in no greater number than they were sent, and before the task turns
/// to data these must be such that they can be hashed.
pub proof fn tasks_take_what_they_wait_for(t: TaskView, event: ImageEventView)
    ensures
        t.expects(event) <==> match event {
            ImageEventView::Found(found) => {
                &&& t.phase is UrlLookup || t.phase is HashLookup
                &&& found.len() == t.todo.len()
                &&& t.phase is UrlLookup && (forall|k: int|
                    0 <= k < found.len() ==> (#[trigger] found[k]) is Some) ==> forall|k: int|
                    0 <= k < t.data.len() ==> hashable((#[trigger] t.data[k]).url)
            },
            ImageEventView::Uploaded(outcome) => t.phase is UrlUpload || (t.phase is FileUpload && (
            outcome is Ok ==> outcome->Ok_0.len() <= t.todo.len())),
            ImageEventView::Stored => t.phase is HashStore || (t.phase is UrlStore && forall|k: int|
                0 <= k < t.data.len() ==> hashable((#[trigger] t.data[k]).url)),
            ImageEventView::Written(_) => t.phase is Writing,
            ImageEventView::Removed => t.phase is Removing,
        },
{
    if let ImageEventView::Found(found) = event {
        if found.len() == t.todo.len() {
            lemma_none_missed(t.todo, found, t.todo.len() as int);
        }
    }
}

/// No job is left where the cache has something for each.
proof fn lemma_none_missed(todo: Seq<JobView>, found: Seq<Option<Seq<char>>>, n: int)
    requires
        0 <= n <= found.len(),
    ensures
        missed(todo, found, n).len() == 0 <==> forall|k: int|
            0 <= k < n ==> (#[trigger] found[k]) is Some,
    decreases n,
{
    if n > 0 {
        lemma_none_missed(todo, found, n - 1);
        if missed(todo, found, n).len() == 0 {
            assert(missed(todo, found, n - 1).len() == 0);
            assert(found[n - 1] is Some);
        }
    }
}

/// A task can start where there is an image that lies elsewhere, or where the
/// data of all images can be hashed.
pub proof fn tasks_start_where_they_can(messages: Seq<MessageView>)
    ensures
        can_begin(messages) <==> jobs(messages, false).len() > 0 || forall|k: int|
            0 <= k < jobs(messages, true).len() ==> hashable(
                (#[trigger] jobs(messages, true)[k]).url,
            ),
{
}

/// A message with more images holds its own parts, a plain text being one part,
/// and then the images, in order.
pub proof fn images_are_attached_behind(message: MessageView, urls: Seq<Seq<char>>)
    ensures
        ({
            let after = with_images(message, urls);
            let own = own_parts(message.content);
            &&& after.role == message.role
            &&& after.content is Multi
            &&& after.content->Multi_0.len() == own.len() + urls.len()
            &&& forall|i: int|
                0 <= i < own.len() ==> (#[trigger] after.content->Multi_0[i]) == own[i]
            &&& forall|k: int|
                0 <= k < urls.len() ==> after.content->Multi_0[own.len() + k] == ItemView::ImageUrl(
                    #[trigger] urls[k],
                )
        }),
{
}

/// The jobs of a conversation are for its images, each for another one, and stay
/// so when URLs are put in place for some of them or for others.
pub proof fn jobs_stay_with_their_images(
    messages: Seq<MessageView>,
    data: bool,
    after: Seq<MessageView>,
    todo: Seq<JobView>,
    urls: Seq<Option<Seq<char>>>,
    others: Seq<JobView>,
)
    ensures
        for_images(messages, jobs(messages, data)),
        put_in_place(messages, after, todo, urls) && for_images(messages, others) ==> for_images(
            after,
            others,
        ),
{
    images_to_upload_are_found(messages, data);
    let found = jobs(messages, data);
    assert forall|k: int, l: int| 0 <= k < l < found.len() implies (#[trigger] found[k]).message
        != (#[trigger] found[l]).message || found[k].item != found[l].item by {
        assert(comes_before(found[k], found[l]));
    }
    if put_in_place(messages, after, todo, urls) && for_images(messages, others) {
        assert forall|k: int| 0 <= k < others.len() implies ({
            let part = part_at(after, (#[trigger] others[k]).message, others[k].item);
            part is Some && part->0 is ImageUrl
        }) by {
            let m = others[k].message;
            let i = others[k].item;
            assert(part_at(messages, m, i) is Some);
            if exists|j: int|
                0 <= j < urls.len() && (#[trigger] urls[j]) is Some && todo[j].message == m
                    && todo[j].item == i {
                let j = choose|j: int|
                    0 <= j < urls.len() && (#[trigger] urls[j]) is Some && todo[j].message == m
                        && todo[j].item == i;
                assert(part_at(after, todo[j].message, todo[j].item) == Some(
                    ItemView::ImageUrl(urls[j]->0),
                ));
            } else {
                assert(part_at(after, m, i) == part_at(messages, m, i));
            }
        }
    }
}

} // verus!
