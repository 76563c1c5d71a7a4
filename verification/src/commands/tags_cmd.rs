//! `zot tags` and `zot authors`: what there is, in order.
use crate::api::client::TagInfo;
use crate::api::models::ZoteroItem;
use crate::json::ascending;
use crate::json::opt_str;
use crate::output::AuthorsOutput;
use crate::output::TagOutput;
use crate::output::TagsOutput;
use crate::text::at_most;
use crate::text::chars_of;
use crate::text::find_from;
use crate::text::found_from;
use crate::text::is_empty;
use crate::text::lemma_text_le_antisym;
use crate::text::lemma_text_le_total;
use crate::text::lemma_text_le_trans;
use crate::text::lowercase;
use crate::text::text_le;
use crate::text::texts;
use crate::text::to_lowercase;
use vstd::prelude::*;

verus! {

/// Whether a text has another in it, ignoring case.
pub open spec fn has_folded(s: Seq<char>, part: Seq<char>) -> bool {
    found_from(lowercase(s), lowercase(part), 0) is Some
}

/// Whether a text has another in it, ignoring case.
pub fn contains_folded(s: &str, part: &str) -> (r: bool)
    ensures
        r == has_folded(s@, part@),
{
    let folded = to_lowercase(s);
    let wanted = to_lowercase(part);
    let chars = chars_of(folded.as_str());
    find_from(chars.as_slice(), wanted.as_str(), 0).is_some()
}

/// Whether a text passes a filter.
pub open spec fn passes(s: Seq<char>, filter: Option<Seq<char>>) -> bool {
    match filter {
        Some(f) => has_folded(s, f),
        None => true,
    }
}

fn passes_filter(s: &str, filter: Option<&str>) -> (r: bool)
    ensures
        r == passes(s@, opt_str(filter)),
{
    match filter {
        Some(f) => contains_folded(s, f),
        None => true,
    }
}

/// A tag with how many items have it.
pub type TagCount = (Seq<char>, u32);

/// Tags sorted by lowercase name and one more, put after those it does not precede.
pub open spec fn with_tag(s: Seq<TagCount>, t: TagCount) -> Seq<TagCount>
    decreases s.len(),
{
    if s.len() == 0 || text_le(lowercase(s.last().0), lowercase(t.0)) {
        s.push(t)
    } else {
        with_tag(s.drop_last(), t).push(s.last())
    }
}

/// The tags that pass a filter, sorted by lowercase name; equal names keep their order.
pub open spec fn listed_tags(tags: Seq<TagInfo>, filter: Option<Seq<char>>) -> Seq<TagCount>
    decreases tags.len(),
{
    if tags.len() == 0 {
        Seq::empty()
    } else {
        let head = listed_tags(tags.drop_last(), filter);
        let t = tags.last();
        if passes(t.tag@, filter) {
            with_tag(head, (t.tag@, t.meta.num_items))
        } else {
            head
        }
    }
}

/// The tags of a list.
pub open spec fn tag_counts(v: Seq<TagOutput>) -> Seq<TagCount> {
    v.map_values(|t: TagOutput| (t.tag@, t.num_items))
}

fn insert_tag(list: &mut Vec<TagOutput>, t: TagOutput)
    ensures
        tag_counts(final(list)@) == with_tag(tag_counts(old(list)@), (t.tag@, t.num_items)),
    decreases old(list).len(),
{
    let ghost before = tag_counts(list@);
    let ghost view = (t.tag@, t.num_items);
    if list.len() == 0 {
        list.push(t);
        assert(tag_counts(list@) =~= before.push(view));
        return;
    }
    let last = list.pop().unwrap();
    assert(tag_counts(list@) =~= before.drop_last());
    let ghost last_view = (last.tag@, last.num_items);
    assert(before.last() == last_view);
    let a = to_lowercase(last.tag.as_str());
    let b = to_lowercase(t.tag.as_str());
    if at_most(&chars_of(a.as_str()), &chars_of(b.as_str())) {
        list.push(last);
        list.push(t);
        assert(tag_counts(list@) =~= before.push(view));
    } else {
        insert_tag(list, t);
        let ghost head = tag_counts(list@);
        list.push(last);
        assert(tag_counts(list@) =~= head.push(last_view));
    }
}

/// Lists the tags that pass a filter, sorted by name.
pub fn tags_output(tags: &[TagInfo], contains: Option<&str>) -> (r: TagsOutput)
    ensures
        tag_counts(r.tags@) == listed_tags(tags@, opt_str(contains)),
        r.count == r.tags@.len(),
{
    let mut out: Vec<TagOutput> = Vec::new();
    let mut i: usize = 0;
    assert(tag_counts(out@) =~= Seq::empty());
    while i < tags.len()
        invariant
            i <= tags.len(),
            tag_counts(out@) == listed_tags(tags@.take(i as int), opt_str(contains)),
        decreases tags.len() - i,
    {
        assert(tags@.take(i as int + 1).drop_last() =~= tags@.take(i as int));
        if passes_filter(tags[i].tag.as_str(), contains) {
            insert_tag(
                &mut out,
                TagOutput { tag: tags[i].tag.clone(), num_items: tags[i].meta.num_items },
            );
        }
        i += 1;
    }
    assert(tags@.take(tags@.len() as int) =~= tags@);
    TagsOutput { count: out.len(), tags: out }
}

/// Whether a name is that of a creator of one of some items.
pub open spec fn is_creator(items: Seq<ZoteroItem>, name: Seq<char>) -> bool {
    exists|i: int, j: int|
        0 <= i < items.len() && 0 <= j < items[i].data.creators@.len() && (
        #[trigger] items[i].data.creators@[j]).shown() == name
}

proof fn lemma_ascending_push(s: Seq<Seq<char>>, x: Seq<char>)
    requires
        ascending(s),
        s.len() > 0 ==> text_le(s.last(), x) && s.last() != x,
    ensures
        ascending(s.push(x)),
{
    let r = s.push(x);
    assert forall|i: int, j: int| 0 <= i < j < r.len() implies text_le(
        #[trigger] r[i],
        #[trigger] r[j],
    ) && r[i] != r[j] by {
        if j == s.len() {
            if i < s.len() - 1 {
                assert(text_le(s[i], s[s.len() - 1]));
                lemma_text_le_trans(s[i], s.last(), x);
                if s[i] == x {
                    lemma_text_le_antisym(s[i], s.last());
                }
            }
        } else {
            assert(text_le(s[i], s[j]));
        }
    }
}

/// Adds a text to a list in ascending order, unless it is there.
fn insert_ascending(list: &mut Vec<String>, s: String)
    requires
        ascending(texts(old(list)@)),
    ensures
        ascending(texts(final(list)@)),
        forall|k: Seq<char>| #[trigger]
            texts(final(list)@).contains(k) <==> texts(old(list)@).contains(k) || k == s@,
        texts(old(list)@).len() > 0 ==> texts(final(list)@).len() > 0 && (texts(final(list)@).last()
            == texts(old(list)@).last() || texts(final(list)@).last() == s@),
        texts(final(list)@).len() > 0,
    decreases old(list).len(),
{
    let ghost before = texts(list@);
    let ghost view = s@;
    if list.len() == 0 {
        list.push(s);
        assert(texts(list@) =~= seq![view]);
        assert(texts(list@)[0] == view);
        return;
    }
    let last = list.pop().unwrap();
    let ghost last_view = last@;
    assert(texts(list@) =~= before.drop_last());
    assert(before.last() == last_view);
    assert(before[before.len() - 1] == last_view);
    assert(ascending(texts(list@))) by {
        let t = texts(list@);
        assert forall|i: int, j: int| 0 <= i < j < t.len() implies text_le(
            #[trigger] t[i],
            #[trigger] t[j],
        ) && t[i] != t[j] by {
            assert(before[i] == t[i] && before[j] == t[j]);
        }
    }
    proof {
        let t = texts(list@);
        assert forall|k: Seq<char>| #[trigger] before.contains(k) <==> t.contains(k) || k
            == last_view by {
            if before.contains(k) {
                let i = choose|i: int| 0 <= i < before.len() && before[i] == k;
                if i < t.len() {
                    assert(t[i] == k);
                }
            }
            if t.contains(k) {
                let i = choose|i: int| 0 <= i < t.len() && t[i] == k;
                assert(before[i] == k);
            }
        }
        lemma_text_le_total(last_view, view);
        if t.len() > 0 {
            assert(text_le(before[t.len() - 1], before[before.len() - 1]));
            assert(before[t.len() - 1] == t.last());
        }
    }
    if last == s {
        list.push(last);
        assert(texts(list@) =~= before);
    } else if at_most(&chars_of(last.as_str()), &chars_of(s.as_str())) {
        list.push(last);
        assert(texts(list@) =~= before);
        list.push(s);
        assert(texts(list@) =~= before.push(view));
        proof {
            lemma_ascending_push(before, view);
            let after = before.push(view);
            assert forall|k: Seq<char>| #[trigger] after.contains(k) <==> before.contains(k) || k
                == view by {
                if before.contains(k) {
                    let i = choose|i: int| 0 <= i < before.len() && before[i] == k;
                    assert(after[i] == k);
                }
                assert(after[before.len() as int] == view);
            }
        }
    } else {
        let ghost t = texts(list@);
        insert_ascending(list, s);
        let ghost head = texts(list@);
        list.push(last);
        assert(texts(list@) =~= head.push(last_view));
        proof {
            assert(head.last() == view || (t.len() > 0 && head.last() == t.last())) by {
                if t.len() == 0 {
                    assert(head.contains(head.last()));
                }
            }
            lemma_ascending_push(head, last_view);
            let after = head.push(last_view);
            assert forall|k: Seq<char>| #[trigger] after.contains(k) <==> before.contains(k) || k
                == view by {
                assert(head.contains(k) <==> t.contains(k) || k == view);
                assert(before.contains(k) <==> t.contains(k) || k == last_view);
                if head.contains(k) {
                    let i = choose|i: int| 0 <= i < head.len() && head[i] == k;
                    assert(after[i] == k);
                }
                assert(after[head.len() as int] == last_view);
            }
        }
    }
}

/// Lists the names of all creators that pass a filter, each once, in ascending order.
pub fn authors_output(items: &[ZoteroItem], contains: Option<&str>) -> (r: AuthorsOutput)
    ensures
        ascending(texts(r.authors@)),
        forall|k: Seq<char>| #[trigger]
            texts(r.authors@).contains(k) <==> k.len() > 0 && is_creator(items@, k) && passes(
                k,
                opt_str(contains),
            ),
        r.count == r.authors@.len(),
{
    let ghost filter = opt_str(contains);
    let mut out: Vec<String> = Vec::new();
    let mut i: usize = 0;
    assert(texts(out@) =~= Seq::empty());
    while i < items.len()
        invariant
            i <= items.len(),
            filter == opt_str(contains),
            ascending(texts(out@)),
            forall|k: Seq<char>| #[trigger]
                texts(out@).contains(k) <==> k.len() > 0 && is_creator(items@.take(i as int), k)
                    && passes(k, filter),
        decreases items.len() - i,
    {
        let creators = &items[i].data.creators;
        let ghost before = texts(out@);
        let mut j: usize = 0;
        while j < creators.len()
            invariant
                j <= creators.len(),
                filter == opt_str(contains),
                ascending(texts(out@)),
                forall|k: Seq<char>| #[trigger]
                    texts(out@).contains(k) <==> before.contains(k) || (k.len() > 0 && passes(
                        k,
                        filter,
                    ) && exists|m: int|
                        0 <= m < j && (#[trigger] creators@[m]).shown() == k),
            decreases creators.len() - j,
        {
            let name = creators[j].display_name();
            let ghost view = name@;
            let ghost now = texts(out@);
            if !is_empty(name.as_str()) && passes_filter(name.as_str(), contains) {
                insert_ascending(&mut out, name);
            }
            assert forall|k: Seq<char>| #[trigger] texts(out@).contains(k) <==> before.contains(k)
                || (k.len() > 0 && passes(k, filter) && exists|m: int|
                0 <= m < j + 1 && (#[trigger] creators@[m]).shown() == k) by {
                assert(now.contains(k) <==> before.contains(k) || (k.len() > 0 && passes(k, filter)
                    && exists|m: int| 0 <= m < j && (#[trigger] creators@[m]).shown() == k));
                if k == view {
                    assert(creators@[j as int].shown() == k);
                }
            }
            j += 1;
        }
        proof {
            let a = items@.take(i as int);
            let b = items@.take(i as int + 1);
            assert forall|k: Seq<char>| is_creator(b, k) <==> is_creator(a, k) || exists|m: int|
                0 <= m < creators@.len() && (#[trigger] creators@[m]).shown() == k by {
                if is_creator(b, k) {
                    let (p, m) = choose|p: int, m: int|
                        0 <= p < b.len() && 0 <= m < b[p].data.creators@.len() && (
                        #[trigger] b[p].data.creators@[m]).shown() == k;
                    if p < a.len() {
                        assert(a[p].data.creators@[m].shown() == k);
                    } else {
                        assert(creators@[m].shown() == k);
                    }
                }
                if is_creator(a, k) {
                    let (p, m) = choose|p: int, m: int|
                        0 <= p < a.len() && 0 <= m < a[p].data.creators@.len() && (
                        #[trigger] a[p].data.creators@[m]).shown() == k;
                    assert(b[p].data.creators@[m].shown() == k);
                }
                if exists|m: int|
                    0 <= m < creators@.len() && (#[trigger] creators@[m]).shown() == k {
                    let m = choose|m: int|
                        0 <= m < creators@.len() && (#[trigger] creators@[m]).shown() == k;
                    assert(b[i as int].data.creators@[m].shown() == k);
                }
            }
        }
        i += 1;
    }
    assert(items@.take(items@.len() as int) =~= items@);
    AuthorsOutput { count: out.len(), authors: out }
}

} // verus!
