//! What holds of the client's operations taken together.

use crate::llm_client::anthropic::{
    capped_sum, capped_time, is_type_style, perturbed, settled_function_name, settled_type_name,
    settled_variable_name,
};
use crate::llm_client::message::{
    block_texts, content_text, key_entry, key_of, CacheKeyView, CacheValView, ContentBlockView,
    MessageView,
};
use crate::llm_client::reply::{
    block_start, code_in, fence_close, fence_plain, fence_tagged, fenced_blocks, is_wanted,
    longest_wanted,
};
use crate::text::{
    first_match, is_ascii, is_lower, is_upper, joined, lemma_first_match, lemma_first_match_is,
    occurs_at,
};
use vstd::prelude::*;

verus! {

/// Renaming the name of a function is idempotent where it needs no asking:
/// a name that is kept is kept again, as itself.
pub proof fn law_renaming_a_function_is_idempotent(name: Seq<char>)
    requires
        settled_function_name(name) is Some,
    ensures
        settled_function_name(settled_function_name(name)->0) == settled_function_name(name),
        settled_function_name(name) == Some(name),
{
}

/// Renaming the name of a global variable is idempotent where it needs no asking.
pub proof fn law_renaming_a_variable_is_idempotent(name: Seq<char>)
    requires
        settled_variable_name(name) is Some,
    ensures
        settled_variable_name(settled_variable_name(name)->0) == settled_variable_name(name),
        settled_variable_name(name) == Some(name),
{
}

/// Renaming the name of a type is idempotent where it needs no asking.
pub proof fn law_renaming_a_type_is_idempotent(name: Seq<char>)
    requires
        settled_type_name(name) is Some,
    ensures
        settled_type_name(settled_type_name(name)->0) == settled_type_name(name),
        settled_type_name(name) == Some(name),
{
    assert(is_type_style(name));
    assert(settled_type_name(name) == Some(name));
}

/// A name of ASCII characters without a capital letter is the name of a
/// function as it is: it is kept without asking.
pub proof fn law_names_without_capitals_are_kept(name: Seq<char>)
    requires
        forall|i: int|
            0 <= i < name.len() ==> is_ascii(#[trigger] name[i]) && !(0x41 <= (name[i] as u32)
                <= 0x5a),
    ensures
        settled_function_name(name) == Some(name),
{
    assert forall|i: int| 0 <= i < name.len() implies !is_upper(#[trigger] name[i]) by {
        assert(is_ascii(name[i]));
    }
}

/// A name of ASCII characters without a small letter is the name of a
/// global variable as it is: it is kept without asking.
pub proof fn law_names_without_small_letters_are_kept(name: Seq<char>)
    requires
        forall|i: int|
            0 <= i < name.len() ==> is_ascii(#[trigger] name[i]) && !(0x61 <= (name[i] as u32)
                <= 0x7a),
    ensures
        settled_variable_name(name) == Some(name),
{
    assert forall|i: int| 0 <= i < name.len() implies !is_lower(#[trigger] name[i]) by {
        assert(is_ascii(name[i]));
    }
}

/// A name that begins with a capital letter of ASCII, holds a small letter
/// of ASCII and has no underscore is the name of a type as it is: it is
/// kept without asking.
pub proof fn law_names_of_types_are_kept(name: Seq<char>, i: int)
    requires
        name.len() > 0,
        0x41 <= (name[0] as u32) <= 0x5a,
        0 <= i < name.len(),
        0x61 <= (name[i] as u32) <= 0x7a,
        !name.contains('_'),
    ensures
        settled_type_name(name) == Some(name),
{
    assert(is_ascii(name[0]));
    assert(is_ascii(name[i]));
    assert(is_lower(name[i]));
    assert(is_type_style(name));
}

/// No closing fence stands in a fenced block.
pub proof fn lemma_blocks_hold_no_fence(s: Seq<char>, k: int, i: int)
    requires
        0 <= k < fenced_blocks(s).len(),
    ensures
        !occurs_at(fenced_blocks(s)[k], fence_close(), i),
    decreases s.len(),
{
    reveal_strlit("\n```");
    match block_start(s) {
        Some(start) => {
            if 0 < start <= s.len() {
                let rest = s.skip(start);
                lemma_first_match(rest, fence_close(), 0);
                match first_match(rest, fence_close(), 0) {
                    Some(j) => {
                        if 0 <= j && j + fence_close().len() <= rest.len() {
                            let later = rest.skip(j + fence_close().len());
                            if k == 0 {
                                let block = rest.take(j);
                                assert(fenced_blocks(s)[0] == block);
                                if occurs_at(block, fence_close(), i) {
                                    assert(i < j);
                                    assert(block.subrange(i, i + fence_close().len())
                                        =~= rest.subrange(i, i + fence_close().len()));
                                    assert(occurs_at(rest, fence_close(), i));
                                }
                            } else {
                                assert(fenced_blocks(s)[k] == fenced_blocks(later)[k - 1]);
                                lemma_blocks_hold_no_fence(later, k - 1, i);
                            }
                        }
                    },
                    None => {},
                }
            }
        },
        None => {},
    }
}

/// The block that is chosen is one of the blocks, and a wanted one.
pub proof fn lemma_longest_wanted(blocks: Seq<Seq<char>>, prefixes: Seq<Seq<char>>)
    ensures
        match longest_wanted(blocks, prefixes) {
            Some(block) => is_wanted(block, prefixes) && exists|k: int|
                0 <= k < blocks.len() && blocks[k] == block,
            None => true,
        },
    decreases blocks.len(),
{
    if blocks.len() > 0 {
        lemma_longest_wanted(blocks.drop_last(), prefixes);
        match longest_wanted(blocks, prefixes) {
            Some(block) => {
                if block == blocks.last() && is_wanted(blocks.last(), prefixes) {
                    assert(blocks[blocks.len() - 1] == block);
                } else {
                    let k = choose|k: int|
                        0 <= k < blocks.drop_last().len() && blocks.drop_last()[k] == block;
                    assert(blocks[k] == block);
                }
            },
            None => {},
        }
    }
}

/// A block between an opening and a closing fence is the one block of that text.
pub proof fn lemma_fenced_block(block: Seq<char>)
    requires
        forall|i: int| !occurs_at(block, fence_close(), i),
    ensures
        fenced_blocks(fence_plain() + block + fence_close()) == seq![block],
{
    reveal_strlit("```rust\n");
    reveal_strlit("```\n");
    reveal_strlit("\n```");
    let open = fence_plain();
    let close = fence_close();
    let tagged = fence_tagged();
    let s = open + block + close;
    assert(open.len() == 4 && close.len() == 4 && tagged.len() == 8);
    assert(s.subrange(0, 4) =~= open);
    assert(occurs_at(s, open, 0));
    lemma_first_match_is(s, open, 0, 0);
    lemma_first_match(s, tagged, 0);
    assert(!occurs_at(s, tagged, 0)) by {
        if occurs_at(s, tagged, 0) {
            assert(s.subrange(0, 8)[3] == tagged[3]);
            assert(s[3] == open[3]);
        }
    }
    assert(block_start(s) == Some(4int));
    let rest = s.skip(4);
    assert(rest =~= block + close);
    let n = block.len() as int;
    assert(rest.subrange(n, n + 4) =~= close);
    assert(occurs_at(rest, close, n));
    assert forall|i: int| 0 <= i < n implies !occurs_at(rest, close, i) by {
        if occurs_at(rest, close, i) {
            if i + 4 <= n {
                assert(block.subrange(i, i + 4) =~= rest.subrange(i, i + 4));
                assert(occurs_at(block, close, i));
            } else {
                assert(rest.subrange(i, i + 4)[n - i] == close[n - i]);
                assert(rest[n] == close[0]);
            }
        }
    }
    lemma_first_match_is(rest, close, 0, n);
    let later = rest.skip(n + 4);
    assert(later =~= Seq::<char>::empty());
    assert(first_match(later, tagged, 0) is None);
    assert(first_match(later, open, 0) is None);
    assert(block_start(later) is None);
    assert(fenced_blocks(later) =~= Seq::<Seq<char>>::empty());
    assert(rest.take(n) =~= block);
    assert(fenced_blocks(s) =~= seq![block]);
}

/// Extracting code is idempotent on its own result between fences: the
/// code of a reply, put between an opening and a closing fence, is the code
/// of that text. A reply that was taken whole is left out where it holds a
/// closing fence, which would end the block early, or where none of its
/// lines begins with one of the prefixes.
pub proof fn law_code_extraction_is_idempotent(reply: Seq<char>, prefixes: Seq<Seq<char>>)
    requires
        code_in(reply, prefixes) is Some,
        fenced_blocks(reply).len() == 0 ==> is_wanted(reply, prefixes) && forall|i: int|
            !occurs_at(reply, fence_close(), i),
    ensures
        code_in(fence_plain() + code_in(reply, prefixes)->0 + fence_close(), prefixes) == code_in(
            reply,
            prefixes,
        ),
{
    let code = code_in(reply, prefixes)->0;
    if fenced_blocks(reply).len() > 0 {
        lemma_longest_wanted(fenced_blocks(reply), prefixes);
        let k = choose|k: int|
            0 <= k < fenced_blocks(reply).len() && fenced_blocks(reply)[k] == code;
        assert forall|i: int| !occurs_at(code, fence_close(), i) by {
            lemma_blocks_hold_no_fence(reply, k, i);
        }
    }
    lemma_fenced_block(code);
    let one = seq![code];
    assert(one.drop_last() =~= Seq::<Seq<char>>::empty());
    assert(one.last() == code);
    assert(longest_wanted(one.drop_last(), prefixes) is None);
}

/// With another text in the place of the first block of text, the texts of
/// the blocks are the same but for the first.
proof fn lemma_block_texts_update(content: Seq<ContentBlockView>, text: Seq<char>)
    requires
        content.len() > 0,
        content[0] is Text,
    ensures
        block_texts(content).len() > 0,
        block_texts(content)[0] == content[0]->Text_text,
        block_texts(content.update(0, ContentBlockView::Text { text })) == block_texts(
            content,
        ).update(0, text),
    decreases content.len(),
{
    let changed = content.update(0, ContentBlockView::Text { text });
    if content.len() == 1 {
        assert(content.drop_last() =~= Seq::empty());
        assert(changed.drop_last() =~= Seq::empty());
        assert(block_texts(content) =~= seq![content[0]->Text_text]);
        assert(block_texts(changed) =~= seq![text]);
        assert(block_texts(changed) =~= block_texts(content).update(0, text));
    } else {
        let rest = content.drop_last();
        lemma_block_texts_update(rest, text);
        assert(changed.drop_last() =~= rest.update(0, ContentBlockView::Text { text }));
        assert(changed.last() == content.last());
        assert(block_texts(changed) =~= block_texts(content).update(0, text));
    }
}

/// With another text in the place of the first, a joined text is longer by
/// what that text is longer.
proof fn lemma_joined_update(parts: Seq<Seq<char>>, sep: Seq<char>, text: Seq<char>)
    requires
        parts.len() > 0,
    ensures
        joined(parts.update(0, text), sep).len() == joined(parts, sep).len() + text.len()
            - parts[0].len(),
    decreases parts.len(),
{
    let changed = parts.update(0, text);
    if parts.len() > 1 {
        lemma_joined_update(parts.drop_last(), sep, text);
        assert(changed.drop_last() =~= parts.drop_last().update(0, text));
        assert(changed.last() == parts.last());
    }
}

/// Where the first block of the first message is text, it is so after the
/// perturbation too, and the text of the first message in the key is
/// longer by one character.
proof fn lemma_perturbation_makes_the_key_longer(
    messages: Seq<MessageView>,
    stop: Option<Seq<char>>,
)
    requires
        messages.len() > 0,
        messages[0].content.len() > 0,
        messages[0].content[0] is Text,
    ensures
        perturbed(messages).len() > 0,
        perturbed(messages)[0].content.len() > 0,
        perturbed(messages)[0].content[0] is Text,
        key_of(perturbed(messages), stop).messages[0].1.len() == key_of(
            messages,
            stop,
        ).messages[0].1.len() + 1,
{
    let content = messages[0].content;
    let text = content[0]->Text_text;
    let longer = text.push(' ');
    let changed = content.update(0, ContentBlockView::Text { text: longer });
    lemma_block_texts_update(content, longer);
    lemma_joined_update(block_texts(content), seq![' '], longer);
    assert(content_text(changed).len() == content_text(content).len() + 1);
    let before = key_of(messages, stop);
    let after = key_of(perturbed(messages), stop);
    assert(perturbed(messages)[0].content == changed);
    assert(before.messages[0] == key_entry(messages[0]));
    assert(after.messages[0] == key_entry(perturbed(messages)[0]));
}

/// A request that has failed is sent again under another key: where the
/// first block of its first message is text, the messages after the
/// perturbation have another key than before.
pub proof fn law_perturbation_changes_the_key(messages: Seq<MessageView>, stop: Option<Seq<char>>)
    requires
        messages.len() > 0,
        messages[0].content.len() > 0,
        messages[0].content[0] is Text,
    ensures
        key_of(perturbed(messages), stop) != key_of(messages, stop),
{
    lemma_perturbation_makes_the_key_longer(messages, stop);
}

/// A request that has failed twice is sent a third time under a key that
/// is neither that of the first attempt nor that of the second.
pub proof fn law_third_attempt_has_another_key(messages: Seq<MessageView>, stop: Option<Seq<char>>)
    requires
        messages.len() > 0,
        messages[0].content.len() > 0,
        messages[0].content[0] is Text,
    ensures
        key_of(perturbed(perturbed(messages)), stop) != key_of(messages, stop),
        key_of(perturbed(perturbed(messages)), stop) != key_of(perturbed(messages), stop),
{
    lemma_perturbation_makes_the_key_longer(messages, stop);
    lemma_perturbation_makes_the_key_longer(perturbed(messages), stop);
}

/// The counters of a client only grow: a capped sum is no less than what
/// was there, and is the sum itself while that fits.
pub proof fn law_counters_only_grow(tokens: usize, more: usize, time: u64, longer: u64)
    ensures
        capped_sum(tokens, more) >= tokens,
        tokens + more <= usize::MAX ==> capped_sum(tokens, more) == tokens + more,
        capped_time(time, longer) >= time,
        time + longer <= u64::MAX ==> capped_time(time, longer) == time + longer,
{
}

/// Writing a reply to the cache twice is writing it once, and what is
/// written under a key is what is read under it.
pub proof fn law_cache_insert_is_idempotent(
    cache: Map<CacheKeyView, CacheValView>,
    key: CacheKeyView,
    val: CacheValView,
)
    ensures
        cache.insert(key, val).insert(key, val) == cache.insert(key, val),
        cache.insert(key, val).contains_key(key),
        cache.insert(key, val)[key] == val,
{
    assert(cache.insert(key, val).insert(key, val) =~= cache.insert(key, val));
}

} // verus!
