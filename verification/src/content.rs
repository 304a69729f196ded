//! The contents of messages: their text and the addresses of files in them.
use crate::external::{
    first_groups, hex_digit, json_body, json_escaped, json_quote, json_string, regex_groups,
    MARKDOWN_IMAGE,
};
use crate::text::{
    begins_with, chars_of, contains_text, join, joined, lemma_words, replace, replaced,
    split_whitespace, starts_with, string_of, views, words,
};
use crate::types::{
    opt_texts, opt_view, ContentView, ItemView, Message, MessageView, OpenAiContent,
    OpenAiContentItem,
};
use vstd::prelude::*;

verus! {

/// What the JSON string for a text becomes when the quotes around it are taken
/// off and its escaped quotes are written plainly again.
pub open spec fn unquoted(json: Seq<char>) -> Seq<char> {
    if json.len() >= 2 && json[0] == '"' && json.last() == '"' {
        replaced(json.subrange(1, json.len() - 1), "\\\""@, "\""@)
    } else {
        replaced(json, "\\\""@, "\""@)
    }
}

/// One character of a text part as it is counted and searched: a quote stands
/// for itself, any other character is written as in JSON.
pub open spec fn flat(c: char) -> Seq<char> {
    if c == '"' {
        seq![c]
    } else {
        json_escaped(c)
    }
}

/// How a text part of a message is counted and searched: with its special
/// characters escaped as in JSON, except for quotes.
pub open spec fn flattened(text: Seq<char>) -> Seq<char>
    decreases text.len(),
{
    if text.len() == 0 {
        Seq::empty()
    } else {
        flattened(text.drop_last()) + flat(text.last())
    }
}

/// The flattened text parts among `items`, in order.
pub open spec fn flattened_texts(items: Seq<ItemView>) -> Seq<Seq<char>>
    decreases items.len(),
{
    if items.len() == 0 {
        Seq::empty()
    } else {
        let before = flattened_texts(items.drop_last());
        match items.last() {
            ItemView::Text(text) => before.push(flattened(text)),
            ItemView::ImageUrl(_) => before,
        }
    }
}

/// The text of a message: itself where the content is one text, else the
/// flattened text parts, one per line.
pub open spec fn content_text(content: ContentView) -> Seq<char> {
    match content {
        ContentView::Text(s) => s,
        ContentView::Multi(items) => joined(flattened_texts(items), "\n"@),
    }
}

/// Takes the quotes off a JSON string, one at each end, and writes its escaped
/// quotes plainly.
pub fn unquote(json: &str) -> (r: String)
    ensures
        r@ == unquoted(json@),
{
    proof {
        reveal_strlit("\\\"");
    }
    let cs = chars_of(json);
    if cs.len() >= 2 && cs[0] == '"' && cs[cs.len() - 1] == '"' {
        let inner = string_of(&cs, 1, cs.len() - 1);
        replace(&inner, "\\\"", "\"")
    } else {
        replace(json, "\\\"", "\"")
    }
}

/// The JSON body of a text, taken from its beginning.
proof fn lemma_body_from_front(c: char, rest: Seq<char>)
    ensures
        json_body(seq![c] + rest) == json_escaped(c) + json_body(rest),
        flattened(seq![c] + rest) == flat(c) + flattened(rest),
    decreases rest.len(),
{
    let text = seq![c] + rest;
    let none = Seq::<char>::empty();
    if rest.len() == 0 {
        assert(text.drop_last() =~= none);
        assert(json_body(none) =~= none && flattened(none) =~= none);
        assert(rest =~= none);
        assert(none + json_escaped(c) =~= json_escaped(c) + none);
        assert(none + flat(c) =~= flat(c) + none);
    } else {
        let before = rest.drop_last();
        lemma_body_from_front(c, before);
        assert(text.drop_last() =~= seq![c] + before);
        assert(text.last() == rest.last());
        let e = json_escaped(rest.last());
        let f = flat(rest.last());
        assert((json_escaped(c) + json_body(before)) + e =~= json_escaped(c) + (json_body(before)
            + e));
        assert((flat(c) + flattened(before)) + f =~= flat(c) + (flattened(before) + f));
    }
}

/// A character that does not begin an escaped quote stays where these are
/// replaced.
proof fn lemma_stays(c: char, rest: Seq<char>)
    requires
        c != '\\' || rest.len() == 0 || rest[0] != '"',
    ensures
        replaced(seq![c] + rest, "\\\""@, "\""@) == seq![c] + replaced(rest, "\\\""@, "\""@),
{
    let s = seq![c] + rest;
    reveal_strlit("\\\"");
    if begins_with(s, "\\\""@) {
        assert(s.take(2)[0] == s[0] && s.take(2)[1] == s[1]);
    }
    assert(s.skip(1) =~= rest);
}

/// No JSON body begins with a quote.
proof fn lemma_body_begins(text: Seq<char>)
    ensures
        json_body(text).len() > 0 ==> json_body(text)[0] != '"',
{
    if text.len() > 0 {
        let rest = text.skip(1);
        assert(text =~= seq![text[0]] + rest);
        lemma_body_from_front(text[0], rest);
        assert(json_escaped(text[0])[0] != '"');
    }
}

/// A hexadecimal digit is a digit or a letter.
proof fn lemma_hex_digit(d: nat)
    requires
        d < 16,
    ensures
        hex_digit(d) != '\\' && hex_digit(d) != '"',
{
}

/// Writing the escaped quotes of a JSON body plainly leaves the text with its
/// other special characters escaped.
proof fn lemma_body_replaced(text: Seq<char>)
    ensures
        replaced(json_body(text), "\\\""@, "\""@) == flattened(text),
    decreases text.len(),
{
    let p = "\\\""@;
    let q = "\""@;
    reveal_strlit("\\\"");
    reveal_strlit("\"");
    if text.len() > 0 {
        let c = text[0];
        let rest = text.skip(1);
        let body = json_body(rest);
        let out = replaced(body, p, q);
        assert(text =~= seq![c] + rest);
        lemma_body_from_front(c, rest);
        lemma_body_replaced(rest);
        lemma_body_begins(rest);
        let e = json_escaped(c);
        let s = e + body;
        if c == '"' {
            assert(s.take(2) =~= p);
            assert(s.skip(2) =~= body);
            assert(q =~= seq!['"']);
        } else if e.len() == 1 {
            lemma_stays(c, body);
            assert(e =~= seq![c]);
        } else if e.len() == 2 {
            assert(e =~= seq![e[0]] + seq![e[1]]);
            lemma_stays(e[1], body);
            lemma_stays(e[0], seq![e[1]] + body);
            assert(s =~= seq![e[0]] + (seq![e[1]] + body));
            assert(e + out =~= seq![e[0]] + (seq![e[1]] + out));
        } else {
            lemma_hex_digit(c as nat / 16);
            lemma_hex_digit(c as nat % 16);
            let t5 = seq![e[5]] + body;
            let t4 = seq![e[4]] + t5;
            let t3 = seq![e[3]] + t4;
            let t2 = seq![e[2]] + t3;
            let t1 = seq![e[1]] + t2;
            lemma_stays(e[5], body);
            lemma_stays(e[4], t5);
            lemma_stays(e[3], t4);
            lemma_stays(e[2], t3);
            lemma_stays(e[1], t2);
            lemma_stays(e[0], t1);
            assert(s =~= seq![e[0]] + t1);
            assert(e + out =~= seq![e[0]] + (seq![e[1]] + (seq![e[2]] + (seq![e[3]] + (seq![e[4]]
                + (seq![e[5]] + out))))));
        }
    }
}

/// Taking the quotes off the JSON string for a text and writing its escaped
/// quotes plainly gives the flattened text.
pub proof fn unquoting_flattens(text: Seq<char>)
    ensures
        unquoted(json_string(text)) == flattened(text),
{
    let json = json_string(text);
    assert(json.subrange(1, json.len() - 1) =~= json_body(text));
    lemma_body_replaced(text);
}

/// The text of a message.
pub fn get_text_from_openai_content(content: &OpenAiContent) -> (r: String)
    ensures
        r@ == content_text(content@),
{
    match content {
        OpenAiContent::Text(s) => s.clone(),
        OpenAiContent::Multi(items) => {
            let mut text_parts: Vec<String> = Vec::new();
            let mut i: usize = 0;
            assert(views(text_parts@) =~= Seq::<Seq<char>>::empty());
            while i < items.len()
                invariant
                    i <= items.len(),
                    views(text_parts@) == flattened_texts(views(items@).take(i as int)),
                decreases items.len() - i,
            {
                let ghost next = views(items@).take(i + 1);
                let ghost before = views(text_parts@);
                assert(next.drop_last() =~= views(items@).take(i as int));
                assert(next.last() == items@[i as int]@);
                if let OpenAiContentItem::Text { text } = &items[i] {
                    match json_quote(text) {
                        Some(quoted) => {
                            let part = unquote(&quoted);
                            proof {
                                unquoting_flattens(text@);
                            }
                            text_parts.push(part);
                            assert(views(text_parts@) =~= before.push(part@));
                        },
                        None => {
                            text_parts.push(text.clone());
                        },
                    }
                }
                i += 1;
            }
            assert(views(items@).take(i as int) =~= views(items@));
            join(&text_parts, "\n")
        },
    }
}

/// Whether an address belongs to Poe's own file store.
pub open spec fn on_poe_cdn(url: Seq<char>) -> bool {
    begins_with(url, "https://pfst.cf2.poecdn.net"@)
}

/// Tells whether an address belongs to Poe's own file store.
pub fn is_poe_cdn_url(url: &str) -> (b: bool)
    ensures
        b == on_poe_cdn(url@),
{
    starts_with(url, "https://pfst.cf2.poecdn.net")
}

/// Those of the addresses that belong to Poe's CDN, in order.
pub open spec fn cdn_only(urls: Seq<Seq<char>>) -> Seq<Seq<char>>
    decreases urls.len(),
{
    if urls.len() == 0 {
        Seq::empty()
    } else if on_poe_cdn(urls.last()) {
        cdn_only(urls.drop_last()).push(urls.last())
    } else {
        cdn_only(urls.drop_last())
    }
}

/// The texts among optional texts, in order.
pub open spec fn present(groups: Seq<Option<Seq<char>>>) -> Seq<Seq<char>>
    decreases groups.len(),
{
    if groups.len() == 0 {
        Seq::empty()
    } else {
        match groups.last() {
            Some(s) => present(groups.drop_last()).push(s),
            None => present(groups.drop_last()),
        }
    }
}

/// The addresses on Poe's CDN that a text mentions, given what the
/// pattern for Markdown images finds in it: first the images, then the words
/// that are such addresses.
pub open spec fn mentioned_urls(groups: Seq<Option<Seq<char>>>, text: Seq<char>) -> Seq<Seq<char>> {
    cdn_only(present(groups)) + cdn_only(words(text))
}

/// The addresses on Poe's CDN that a Markdown text mentions.
pub open spec fn markdown_urls(text: Seq<char>) -> Seq<Seq<char>> {
    mentioned_urls(regex_groups(MARKDOWN_IMAGE@, text), text)
}

/// Adds to `urls` the addresses on Poe's CDN that a text mentions, given
/// what the pattern for Markdown images found in it.
pub fn collect_mentioned_urls(groups: &Vec<Option<String>>, text: &str, urls: &mut Vec<String>)
    ensures
        views(final(urls)@) == views(old(urls)@) + mentioned_urls(opt_texts(groups@), text@),
{
    let ghost start = views(urls@);
    let ghost all = opt_texts(groups@);
    let mut i: usize = 0;
    assert(all.take(0) =~= Seq::<Option<Seq<char>>>::empty());
    assert(views(urls@) =~= start + cdn_only(present(all.take(0))));
    while i < groups.len()
        invariant
            i <= groups.len(),
            all == opt_texts(groups@),
            views(urls@) == start + cdn_only(present(all.take(i as int))),
        decreases groups.len() - i,
    {
        let ghost next = all.take(i + 1);
        let ghost before = views(urls@);
        assert(next.drop_last() =~= all.take(i as int));
        assert(next.last() == opt_view(groups@[i as int]));
        if let Some(url) = &groups[i] {
            let ghost known = present(all.take(i as int));
            assert(known.push(url@).drop_last() =~= known);
            if is_poe_cdn_url(url) {
                urls.push(url.clone());
                assert(views(urls@) =~= before.push(url@));
                assert(start + cdn_only(known).push(url@) =~= views(urls@));
            }
        }
        i += 1;
    }
    assert(all.take(i as int) =~= all);
    let found = split_whitespace(text);
    let ghost ws = views(found@);
    let ghost middle = views(urls@);
    let mut k: usize = 0;
    assert(ws.take(0) =~= Seq::<Seq<char>>::empty());
    assert(views(urls@) =~= middle + cdn_only(ws.take(0)));
    while k < found.len()
        invariant
            k <= found.len(),
            ws == views(found@),
            views(urls@) == middle + cdn_only(ws.take(k as int)),
        decreases found.len() - k,
    {
        let ghost next = ws.take(k + 1);
        let ghost before = views(urls@);
        assert(next.drop_last() =~= ws.take(k as int));
        assert(next.last() == found@[k as int]@);
        if is_poe_cdn_url(&found[k]) {
            urls.push(found[k].clone());
            assert(views(urls@) =~= before.push(found@[k as int]@));
            assert(middle + cdn_only(ws.take(k as int)).push(found@[k as int]@) =~= views(urls@));
        }
        k += 1;
    }
    assert(ws.take(k as int) =~= ws);
    assert(start + cdn_only(present(all)) + cdn_only(ws) =~= start + (cdn_only(present(all))
        + cdn_only(ws)));
}

/// What is taken from Poe's CDN is on Poe's CDN, and was there to be taken.
proof fn lemma_cdn_only(urls: Seq<Seq<char>>)
    ensures
        forall|k: int|
            0 <= k < cdn_only(urls).len() ==> on_poe_cdn(#[trigger] cdn_only(urls)[k])
                && urls.contains(cdn_only(urls)[k]),
    decreases urls.len(),
{
    if urls.len() > 0 {
        let before = urls.drop_last();
        lemma_cdn_only(before);
        let known = cdn_only(before);
        assert forall|k: int| 0 <= k < cdn_only(urls).len() implies on_poe_cdn(
            #[trigger] cdn_only(urls)[k],
        ) && urls.contains(cdn_only(urls)[k]) by {
            if k < known.len() {
                assert(cdn_only(urls)[k] == known[k]);
                let i = choose|i: int| 0 <= i < before.len() && before[i] == known[k];
                assert(urls[i] == known[k]);
            } else {
                assert(urls[urls.len() - 1] == cdn_only(urls)[k]);
            }
        }
    }
}

/// The groups that took part are among the groups.
proof fn lemma_present(groups: Seq<Option<Seq<char>>>)
    ensures
        forall|k: int|
            0 <= k < present(groups).len() ==> groups.contains(Some(#[trigger] present(groups)[k])),
    decreases groups.len(),
{
    if groups.len() > 0 {
        let before = groups.drop_last();
        lemma_present(before);
        let known = present(before);
        assert forall|k: int| 0 <= k < present(groups).len() implies groups.contains(
            Some(#[trigger] present(groups)[k]),
        ) by {
            if k < known.len() {
                assert(present(groups)[k] == known[k]);
                let i = choose|i: int| 0 <= i < before.len() && before[i] == Some(known[k]);
                assert(groups[i] == Some(known[k]));
            } else {
                assert(groups[groups.len() - 1] == Some(present(groups)[k]));
            }
        }
    }
}

/// Adds to `urls` the addresses on Poe's CDN that a Markdown text mentions. All
/// of them occur in the text.
pub fn extract_urls_from_markdown(text: &str, urls: &mut Vec<String>)
    ensures
        views(final(urls)@) == views(old(urls)@) + markdown_urls(text@),
        forall|k: int|
            0 <= k < markdown_urls(text@).len() ==> contains_text(
                text@,
                #[trigger] markdown_urls(text@)[k],
            ),
{
    let groups = first_groups(MARKDOWN_IMAGE, text);
    let ghost all = regex_groups(MARKDOWN_IMAGE@, text@);
    assert(opt_texts(groups@) =~= all);
    collect_mentioned_urls(&groups, text, urls);
    proof {
        let images = cdn_only(present(all));
        lemma_cdn_only(present(all));
        lemma_cdn_only(words(text@));
        lemma_present(all);
        lemma_words(text@);
        assert forall|k: int| 0 <= k < markdown_urls(text@).len() implies contains_text(
            text@,
            #[trigger] markdown_urls(text@)[k],
        ) by {
            let url = markdown_urls(text@)[k];
            if k < images.len() {
                assert(url == images[k]);
                let i = choose|i: int| 0 <= i < present(all).len() && present(all)[i] == url;
                let j = choose|j: int| 0 <= j < all.len() && all[j] == Some(present(all)[i]);
                assert(all.contains(Some(present(all)[i])));
                assert(opt_view(groups@[j]) == Some(url));
            } else {
                assert(url == cdn_only(words(text@))[k - images.len()]);
                let i = choose|i: int| 0 <= i < words(text@).len() && words(text@)[i] == url;
                assert(contains_text(text@, words(text@)[i]));
            }
        }
    }
}

/// The addresses on Poe's CDN in the first parts of a message.
pub open spec fn item_urls(items: Seq<ItemView>) -> Seq<Seq<char>>
    decreases items.len(),
{
    if items.len() == 0 {
        Seq::empty()
    } else {
        let before = item_urls(items.drop_last());
        match items.last() {
            ItemView::ImageUrl(url) => if on_poe_cdn(url) {
                before.push(url)
            } else {
                before
            },
            ItemView::Text(text) => before + markdown_urls(text),
        }
    }
}

/// The addresses on Poe's CDN in a message, in order: those of its
/// images and those that its texts mention.
pub open spec fn message_urls(message: MessageView) -> Seq<Seq<char>> {
    match message.content {
        ContentView::Multi(items) => item_urls(items),
        ContentView::Text(text) => markdown_urls(text),
    }
}

/// A URL is that of an image, or occurs in a text.
pub open spec fn shows(item: ItemView, url: Seq<char>) -> bool {
    match item {
        ItemView::Text(text) => contains_text(text, url),
        ItemView::ImageUrl(other) => other == url,
    }
}

/// A URL is that of an image of a message, or occurs in one of its texts.
pub open spec fn occurs_in_message(message: MessageView, url: Seq<char>) -> bool {
    match message.content {
        ContentView::Text(text) => contains_text(text, url),
        ContentView::Multi(items) => exists|i: int|
            0 <= i < items.len() && shows(#[trigger] items[i], url),
    }
}

/// What a part shows occurs in the message.
proof fn lemma_shown(message: MessageView, items: Seq<ItemView>, i: int, url: Seq<char>)
    requires
        message.content == ContentView::Multi(items),
        0 <= i < items.len(),
        shows(items[i], url),
    ensures
        occurs_in_message(message, url),
{
    match message.content {
        ContentView::Text(_) => {},
        ContentView::Multi(all) => {
            assert(all == items);
            assert(shows(all[i], url));
        },
    }
}

/// The addresses on Poe's CDN in a message. All of them occur in it.
pub fn extract_poe_cdn_urls_from_message(message: &Message) -> (urls: Vec<String>)
    ensures
        views(urls@) == message_urls(message@),
        forall|k: int|
            0 <= k < urls@.len() ==> occurs_in_message(message@, (#[trigger] urls@[k])@),
{
    let mut urls: Vec<String> = Vec::new();
    assert(views(urls@) =~= Seq::<Seq<char>>::empty());
    match &message.content {
        OpenAiContent::Multi(items) => {
            let mut i: usize = 0;
            while i < items.len()
                invariant
                    i <= items.len(),
                    views(urls@) == item_urls(views(items@).take(i as int)),
                    message@.content == ContentView::Multi(views(items@)),
                    forall|k: int|
                        0 <= k < urls@.len() ==> occurs_in_message(
                            message@,
                            (#[trigger] urls@[k])@,
                        ),
                decreases items.len() - i,
            {
                let ghost known = urls@;
                let ghost next = views(items@).take(i + 1);
                let ghost before = views(urls@);
                assert(next.drop_last() =~= views(items@).take(i as int));
                assert(next.last() == items@[i as int]@);
                assert(views(items@)[i as int] == items@[i as int]@);
                match &items[i] {
                    OpenAiContentItem::ImageUrl { image_url } => {
                        if is_poe_cdn_url(&image_url.url) {
                            urls.push(image_url.url.clone());
                            assert(views(urls@) =~= before.push(image_url.url@));
                            proof {
                                lemma_shown(message@, views(items@), i as int, image_url.url@);
                            }
                            assert forall|k: int| 0 <= k < urls@.len() implies occurs_in_message(
                                message@,
                                (#[trigger] urls@[k])@,
                            ) by {
                                if k < known.len() {
                                    assert(urls@[k] == known[k]);
                                }
                            }
                        }
                    },
                    OpenAiContentItem::Text { text } => {
                        extract_urls_from_markdown(text, &mut urls);
                        let ghost all = before + markdown_urls(text@);
                        assert(views(urls@) == all && all.len() == urls@.len());
                        assert forall|k: int| 0 <= k < urls@.len() implies occurs_in_message(
                            message@,
                            (#[trigger] urls@[k])@,
                        ) by {
                            assert(views(urls@)[k] == urls@[k]@);
                            if k < known.len() {
                                assert(views(urls@)[k] == before[k]);
                                assert(before[k] == known[k]@);
                            } else {
                                assert(all[k] == markdown_urls(text@)[k - before.len()]);
                                lemma_shown(message@, views(items@), i as int, urls@[k]@);
                            }
                        }
                    },
                }
                i += 1;
            }
            assert(views(items@).take(i as int) =~= views(items@));
        },
        OpenAiContent::Text(text) => {
            extract_urls_from_markdown(text, &mut urls);
            assert(Seq::<Seq<char>>::empty() + markdown_urls(text@) =~= markdown_urls(text@));
            assert forall|k: int| 0 <= k < urls@.len() implies occurs_in_message(
                message@,
                (#[trigger] urls@[k])@,
            ) by {
                assert(views(urls@)[k] == urls@[k]@);
            }
        },
    }
    urls
}

/// The URLs in parts of a message are on Poe's CDN.
proof fn lemma_item_urls(items: Seq<ItemView>)
    ensures
        forall|k: int|
            0 <= k < item_urls(items).len() ==> on_poe_cdn(#[trigger] item_urls(items)[k]),
    decreases items.len(),
{
    if items.len() > 0 {
        lemma_item_urls(items.drop_last());
        if let ItemView::Text(text) = items.last() {
            lemma_markdown_urls(text);
        }
        let known = item_urls(items.drop_last());
        assert forall|k: int| 0 <= k < item_urls(items).len() implies on_poe_cdn(
            #[trigger] item_urls(items)[k],
        ) by {
            if k < known.len() {
                assert(item_urls(items)[k] == known[k]);
            } else if let ItemView::Text(text) = items.last() {
                assert(item_urls(items)[k] == markdown_urls(text)[k - known.len()]);
            }
        }
    }
}

/// The URLs in a Markdown text are on Poe's CDN.
proof fn lemma_markdown_urls(text: Seq<char>)
    ensures
        forall|k: int|
            0 <= k < markdown_urls(text).len() ==> on_poe_cdn(#[trigger] markdown_urls(text)[k]),
{
    lemma_cdn_only(present(regex_groups(MARKDOWN_IMAGE@, text)));
    lemma_cdn_only(words(text));
}

/// Every URL that is extracted from a message is on Poe's CDN.
pub proof fn extracted_urls_are_on_the_cdn(message: MessageView)
    ensures
        forall|k: int|
            0 <= k < message_urls(message).len() ==> on_poe_cdn(
                #[trigger] message_urls(message)[k],
            ),
{
    match message.content {
        ContentView::Text(text) => lemma_markdown_urls(text),
        ContentView::Multi(items) => lemma_item_urls(items),
    }
}

/// A character that is counted and searched as it stands: any but backslashes
/// and control characters.
pub open spec fn unescaped(c: char) -> bool {
    c != '\\' && (c as nat) >= 32
}

/// A text part without backslashes and control characters is counted and
/// searched as it stands, with all its quotes.
pub proof fn plain_texts_stay(text: Seq<char>)
    requires
        forall|i: int| 0 <= i < text.len() ==> unescaped(#[trigger] text[i]),
    ensures
        flattened(text) == text,
    decreases text.len(),
{
    if text.len() > 0 {
        let before = text.drop_last();
        assert forall|i: int| 0 <= i < before.len() implies unescaped(#[trigger] before[i]) by {
            assert(before[i] == text[i]);
        }
        plain_texts_stay(before);
        assert(unescaped(text[text.len() - 1]));
        assert(text =~= before + seq![text.last()]);
    }
}

} // verus!
