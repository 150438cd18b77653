//! What holds of topics and of the cup counter's payload.

use vstd::prelude::*;

use crate::mqtt::cup_counter::{
    blank, blank_len, decimal, digit, digits, lemma_blank_joins, lemma_place_is_unique, numeral_at,
    says, unsigned,
};
use crate::mqtt::messages::{
    below, ConnectionStatus, Delivery, MqttEvent, MqttOutboundMessage, MqttReaction,
};

verus! {

/// The decimal notation of a number.
pub open spec fn notation(count: nat) -> Seq<u8>
    decreases count,
{
    if count < 10 {
        seq![(0x30 + count) as u8]
    } else {
        notation(count / 10).push((0x30 + count % 10) as u8)
    }
}

proof fn lemma_notation(count: nat)
    ensures
        digits(notation(count)),
        decimal(notation(count)) == count,
    decreases count,
{
    let text = notation(count);
    if count < 10 {
        assert(decimal(text.drop_last()) == 0);
        assert(text.last() == 0x30 + count);
    } else {
        lemma_notation(count / 10);
        assert(text.drop_last() =~= notation(count / 10));
        assert(text.last() == 0x30 + count % 10);
        assert forall|i: int| 0 <= i < text.len() implies digit(#[trigger] text[i]) by {
            if i < text.len() - 1 {
                assert(text[i] == notation(count / 10)[i]);
            }
        }
    }
}

/// A counter written in decimal is read back as the same number.
pub proof fn law_written_count_is_read_back(count: u64)
    ensures
        says(notation(count as nat), count as nat),
{
    let text = notation(count as nat);
    lemma_notation(count as nat);
    assert(digit(text[0]));
    assert(unsigned(text) == text);
    assert(text.subrange(0, text.len() as int) =~= text);
    assert(numeral_at(text, 0, text.len() as int, count as nat));
}

/// White space around a payload makes no difference.
pub proof fn law_white_space_is_trimmed(before: Seq<u8>, data: Seq<u8>, after: Seq<u8>, count: nat)
    requires
        blank(before),
        blank(after),
        says(data, count),
    ensures
        says(before + data + after, count),
{
    let (i, j) = choose|i: int, j: int| numeral_at(data, i, j, count);
    let all = before + data + after;
    let (b, d) = (before.len() as int, data.len() as int);
    let head = all.subrange(0, b + i);
    let tail = all.subrange(b + j, all.len() as int);
    assert(head.subrange(0, b) =~= before);
    assert(head.skip(b) =~= data.subrange(0, i));
    lemma_blank_joins(head, b);
    assert(tail.subrange(0, d - j) =~= data.subrange(j, d));
    assert(tail.skip(d - j) =~= after);
    lemma_blank_joins(tail, d - j);
    assert(all.subrange(b + i, b + j) =~= data.subrange(i, j));
    assert(numeral_at(all, b + i, b + j, count));
}

/// A payload says one number at most.
pub proof fn law_payload_says_one_number(data: Seq<u8>, first: nat, second: nat)
    requires
        says(data, first),
        says(data, second),
    ensures
        first == second,
{
    let (i, j) = choose|i: int, j: int| numeral_at(data, i, j, first);
    let (k, l) = choose|k: int, l: int| numeral_at(data, k, l, second);
    lemma_place_is_unique(data, i, j, first, k, l, second);
}

/// An event has one right reaction.
pub proof fn law_reaction_is_determined(
    event: MqttEvent,
    counter_topic: Seq<char>,
    first: MqttReaction,
    second: MqttReaction,
)
    requires
        first.answers(event, counter_topic),
        second.answers(event, counter_topic),
    ensures
        first == second,
{
    if let MqttEvent::Received { topic: Some(_), data } = event {
        if let MqttReaction::Cups(count) = first {
            assert(says(data@, count as nat));
        }
        if let MqttReaction::Cups(count) = second {
            assert(says(data@, count as nat));
        }
    }
}

/// A relative message stays below the prefix, whatever its suffix; two of them share a topic
/// only where they share the suffix. An absolute one is not touched.
pub proof fn law_relative_topics_stay_below_the_prefix(
    prefix: Seq<char>,
    first: MqttOutboundMessage,
    second: MqttOutboundMessage,
)
    requires
        !first.absolute,
        !second.absolute,
    ensures
        (prefix + "/"@).is_prefix_of(first.full_topic(prefix)),
        first.full_topic(prefix) == second.full_topic(prefix) ==> first.topic_suffix@
            == second.topic_suffix@,
{
    let root = prefix + "/"@;
    let (a, b) = (first.full_topic(prefix), second.full_topic(prefix));
    assert(a.take(root.len() as int) =~= root);
    assert(a.skip(root.len() as int) =~= first.topic_suffix@);
    assert(b.skip(root.len() as int) =~= second.topic_suffix@);
}

/// A message that the broker keeps is delivered at least once.
pub proof fn law_retained_messages_arrive(message: MqttOutboundMessage)
    ensures
        message.delivered() == Delivery::AtLeastOnce <==> message.retain,
{
}

/// An absolute message goes to the topic it names, a relative one to prefix, slash and suffix,
/// character by character; whether it is kept and what it says make no difference.
pub proof fn law_topic_is_spelled_out(message: MqttOutboundMessage, prefix: Seq<char>)
    ensures
        message.absolute ==> message.full_topic(prefix) == message.topic_suffix@,
        !message.absolute ==> {
            let (topic, suffix) = (message.full_topic(prefix), message.topic_suffix@);
            &&& topic.len() == prefix.len() + 1 + suffix.len()
            &&& forall|i: int| 0 <= i < prefix.len() ==> #[trigger] topic[i] == prefix[i]
            &&& topic[prefix.len() as int] == '/'
            &&& topic.skip(prefix.len() + 1int) == suffix
        },
{
    reveal_strlit("/");
    if !message.absolute {
        assert(message.full_topic(prefix).skip(prefix.len() + 1int) =~= message.topic_suffix@);
    }
}

/// Messages that differ only in what they say or in whether they are kept go to one topic.
pub proof fn law_topic_goes_by_its_name_alone(
    first: MqttOutboundMessage,
    second: MqttOutboundMessage,
    prefix: Seq<char>,
)
    requires
        first.absolute == second.absolute,
        first.topic_suffix@ == second.topic_suffix@,
    ensures
        first.full_topic(prefix) == second.full_topic(prefix),
{
}

/// The counter is below the prefix like every other relative topic, under its own name.
pub proof fn law_counter_topic_is_relative(message: MqttOutboundMessage, prefix: Seq<char>)
    requires
        !message.absolute,
        message.topic_suffix@ == "cup_counter"@,
    ensures
        below(prefix, "cup_counter"@) == message.full_topic(prefix),
{
}

/// Whether an event is a message on the counter's topic that says `count`.
pub open spec fn brings(event: MqttEvent, counter: Seq<char>, count: u64) -> bool {
    &&& event matches MqttEvent::Received { topic: Some(topic), data }
    &&& topic@ == counter
    &&& says(data@, count as nat)
}

/// A connection that comes up is announced as up, one that breaks as being made again. Cups are
/// announced just for messages on the counter's topic that say a number, and a complaint is made
/// just for those that say none of up to 64 bits. Everything else is ignored.
pub proof fn law_events_are_answered(event: MqttEvent, counter: Seq<char>, reaction: MqttReaction)
    requires
        reaction.answers(event, counter),
    ensures
        reaction == MqttReaction::Status(ConnectionStatus::Connected) <==> event is Connected,
        reaction == MqttReaction::Status(ConnectionStatus::Connecting) <==> event is Disconnected,
        reaction is Status ==> event is Connected || event is Disconnected,
        forall|count: u64|
            #[trigger] brings(event, counter, count) <==> reaction == MqttReaction::Cups(count),
        reaction is BadCounter <==> {
            &&& event matches MqttEvent::Received { topic: Some(topic), .. }
            &&& topic@ == counter
            &&& forall|count: u64| !(#[trigger] brings(event, counter, count))
        },
{
    if let MqttEvent::Received { topic: Some(topic), data } = event {
        if topic@ == counter {
            assert forall|count: u64| #[trigger] brings(event, counter, count) <==> reaction
                == MqttReaction::Cups(count) by {
                assert(says(data@, count as nat) <==> reaction == MqttReaction::Cups(count));
            }
        }
    }
    if let MqttReaction::Cups(count) = reaction {
        assert(brings(event, counter, count));
    }
}

/// `n` zeros.
pub open spec fn zeros(n: nat) -> Seq<u8> {
    Seq::new(n, |i: int| 0x30u8)
}

proof fn lemma_decimal_of_zeros(n: nat, text: Seq<u8>)
    ensures
        decimal(zeros(n) + text) == decimal(text),
    decreases n + text.len(),
{
    let all = zeros(n) + text;
    if text.len() > 0 {
        assert(all.drop_last() =~= zeros(n) + text.drop_last());
        assert(all.last() == text.last());
        lemma_decimal_of_zeros(n, text.drop_last());
    } else if n > 0 {
        assert(all.drop_last() =~= zeros((n - 1) as nat) + text);
        assert(all.last() == 0x30);
        lemma_decimal_of_zeros((n - 1) as nat, text);
    }
}

/// Digits are the notation of their value, up to zeros in front; all zeros say zero.
proof fn lemma_digits_are_notation(text: Seq<u8>) -> (n: nat)
    requires
        digits(text),
    ensures
        text == zeros(n) + notation(decimal(text)),
    decreases text.len(),
{
    let (front, last) = (text.drop_last(), text.last());
    assert(digit(last)) by {
        assert(digit(text[text.len() - 1]));
    }
    let d = (last - 0x30) as nat;
    if front.len() == 0 {
        assert(decimal(front) == 0);
        assert(text =~= zeros(0) + notation(d));
        0
    } else {
        assert forall|i: int| 0 <= i < front.len() implies digit(#[trigger] front[i]) by {
            assert(digit(text[i]));
        }
        let n = lemma_digits_are_notation(front);
        let value = decimal(front);
        assert(text =~= front.push(last));
        if value == 0 {
            assert(notation(0) =~= seq![0x30u8]);
            assert(front =~= zeros(n + 1));
            assert(notation(d) =~= seq![last]);
            assert(text =~= zeros(n + 1) + notation(d));
            n + 1
        } else {
            assert((10 * value + d) / 10 == value && (10 * value + d) % 10 == d);
            assert(notation(10 * value + d) == notation(value).push((0x30 + d) as u8));
            assert((0x30 + d) as u8 == last);
            assert(text =~= zeros(n) + notation(10 * value + d));
            n
        }
    }
}

/// The plus sign, if there is one.
pub open spec fn plus_sign(present: bool) -> Seq<u8> {
    if present {
        seq![0x2bu8]
    } else {
        seq![]
    }
}

/// The payload of a number: white space, a plus sign or not, zeros or not, the number in
/// decimal, white space.
pub open spec fn payload(before: Seq<u8>, plus: bool, n: nat, count: nat, after: Seq<u8>) -> Seq<u8> {
    before + plus_sign(plus) + zeros(n) + notation(count) + after
}

/// Every such payload says its number.
pub proof fn law_payload_says_its_number(
    before: Seq<u8>,
    plus: bool,
    n: nat,
    count: nat,
    after: Seq<u8>,
)
    requires
        blank(before),
        blank(after),
    ensures
        says(payload(before, plus, n, count, after), count),
{
    let data = payload(before, plus, n, count, after);
    let number = zeros(n) + notation(count);
    let text = plus_sign(plus) + number;
    let (i, j) = (before.len() as int, (before.len() + text.len()) as int);
    lemma_notation(count);
    lemma_decimal_of_zeros(n, notation(count));
    assert forall|k: int| 0 <= k < number.len() implies digit(#[trigger] number[k]) by {
        if k >= n {
            assert(number[k] == notation(count)[k - n]);
        }
    }
    assert(digit(number[0]));
    assert(unsigned(text) =~= number) by {
        if plus {
            assert(text.skip(1) =~= number);
        } else {
            assert(text =~= number);
        }
    }
    assert(data.subrange(0, i) =~= before);
    assert(data.subrange(i, j) =~= text);
    assert(data.subrange(j, data.len() as int) =~= after);
    assert(numeral_at(data, i, j, count));
}

/// Nothing but such a payload says a number.
pub proof fn law_number_has_such_a_payload(data: Seq<u8>, count: nat)
    requires
        says(data, count),
    ensures
        exists|before: Seq<u8>, plus: bool, n: nat, after: Seq<u8>|
            blank(before) && blank(after) && data == #[trigger] payload(before, plus, n, count, after),
{
    let (i, j) = choose|i: int, j: int| numeral_at(data, i, j, count);
    let (before, text, after) = (
        data.subrange(0, i),
        data.subrange(i, j),
        data.subrange(j, data.len() as int),
    );
    let plus = text.len() > 0 && text[0] == 0x2b;
    let n = lemma_digits_are_notation(unsigned(text));
    assert(text =~= plus_sign(plus) + unsigned(text));
    assert(data =~= before + text + after);
    assert(plus_sign(plus) + (zeros(n) + notation(count)) =~= plus_sign(plus) + zeros(n) + notation(
        count,
    ));
    assert(before + (plus_sign(plus) + zeros(n) + notation(count)) + after =~= payload(
        before,
        plus,
        n,
        count,
        after,
    ));
}

/// A byte is white space on its own just where it is one of the five from tab to carriage
/// return, or a space. Two bytes are a white-space character just where they are the UTF-8 of
/// U+0085 or U+00A0, three where they are that of one of the wide ones.
pub proof fn law_white_space_characters(a: u8, b: u8, c: u8)
    ensures
        blank(seq![]),
        blank(seq![a]) <==> a == 9 || a == 10 || a == 11 || a == 12 || a == 13 || a == 32,
        0xc0 <= a < 0xe0 && 0x80 <= b < 0xc0 ==> {
            let code = (a - 0xc0) * 64 + (b - 0x80);
            blank(seq![a, b]) <==> code == 0x85 || code == 0xa0
        },
        0xe0 <= a < 0xf0 && 0x80 <= b < 0xc0 && 0x80 <= c < 0xc0 ==> {
            let code = (a - 0xe0) * 4096 + (b - 0x80) * 64 + (c - 0x80);
            blank(seq![a, b, c]) <==> {
                ||| code == 0x1680
                ||| 0x2000 <= code <= 0x200a
                ||| code == 0x2028
                ||| code == 0x2029
                ||| code == 0x202f
                ||| code == 0x205f
                ||| code == 0x3000
            }
        },
{
    let (one, two, three) = (seq![a], seq![a, b], seq![a, b, c]);
    assert(one.skip(1) =~= seq![]);
    assert(two.skip(2) =~= seq![]);
    assert(three.skip(3) =~= seq![]);
    assert(blank(one.skip(1)) && blank(two.skip(2)) && blank(three.skip(3)));
}

/// Whether the first `k` bytes have the shape of one UTF-8 character.
pub open spec fn one_character(bytes: Seq<u8>, k: int) -> bool {
    &&& 1 <= k <= bytes.len()
    &&& k == 1 ==> bytes[0] < 0x80
    &&& k == 2 ==> 0xc0 <= bytes[0] < 0xe0 && 0x80 <= bytes[1] < 0xc0
    &&& k == 3 ==> 0xe0 <= bytes[0] < 0xf0 && 0x80 <= bytes[1] < 0xc0 && 0x80 <= bytes[2] < 0xc0
    &&& k <= 3
}

/// White space is made of white-space characters: where there is any, it begins with one, and
/// what follows is white space again.
pub proof fn law_white_space_is_made_of_characters(bytes: Seq<u8>)
    requires
        blank(bytes),
        bytes.len() > 0,
    ensures
        exists|k: int|
            #[trigger] one_character(bytes, k) && blank(bytes.take(k)) && blank(bytes.skip(k)),
{
    let k = blank_len(bytes) as int;
    assert(one_character(bytes, k));
    assert(blank_len(bytes.take(k)) == k);
    assert(blank(bytes.take(k).skip(k)));
}

/// White space goes on: two stretches of it in a row are one.
pub proof fn law_white_space_joins(first: Seq<u8>, second: Seq<u8>)
    requires
        blank(first),
        blank(second),
    ensures
        blank(first + second),
{
    let all = first + second;
    assert(all.subrange(0, first.len() as int) =~= first);
    assert(all.skip(first.len() as int) =~= second);
    lemma_blank_joins(all, first.len() as int);
}

} // verus!
