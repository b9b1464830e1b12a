//! The lines the probe appends to its log file.
//!
//! A temperature is passed in as the text it is written as (two decimals),
//! so each line is a function of plain values.

use vstd::prelude::*;
use crate::json::number::nat_text;
use crate::json::text::TextBuilder;

verus! {

/// The line of the store-buffering probe: the round count, the kind of line
/// (`summary` or `immd`), the architecture name, the temperature and the
/// two tallies.
pub open spec fn store_buffer_line(
    count: nat,
    category: Seq<char>,
    arch: Seq<char>,
    temp: Seq<char>,
    ordered: nat,
    unordered: nat,
) -> Seq<char> {
    "{\"count\":"@ + nat_text(count) + ",\"cat\":\""@ + category + "\",\"type\":\""@ + arch
        + "\",\"temp\":"@ + temp + ",\"ordered\":"@ + nat_text(ordered) + ",\"unordered\":"@
        + nat_text(unordered) + "}\n"@
}

/// The summary line of the message-passing probe.
pub open spec fn message_passing_summary_line(temp: Seq<char>, ordered: nat, unordered: nat) -> Seq<
    char,
> {
    "{cat:\"summary\",type:\"aarch\",temp:"@ + temp + ",ordered:"@ + nat_text(ordered)
        + ",unordered:"@ + nat_text(unordered) + "}\n"@
}

/// The line the message-passing probe writes when a reader saw a stale value.
pub open spec fn message_passing_reorder_line(
    temp: Seq<char>,
    id: nat,
    size: nat,
    round: nat,
    observed: nat,
) -> Seq<char> {
    "{\"cat:\"immd\",type:\"aarch\",\"temp\":"@ + temp + ",\"id\":"@ + nat_text(id)
        + ",\"size\":"@ + nat_text(size) + ",\"i\":"@ + nat_text(round) + ",\"observed\":"@
        + nat_text(observed) + "}\n"@
}

/// A line of the store-buffering probe.
pub fn store_buffer_record(
    count: usize,
    category: &str,
    arch: &str,
    temp: &str,
    ordered: usize,
    unordered: usize,
) -> (line: String)
    ensures
        line@ == store_buffer_line(
            count as nat,
            category@,
            arch@,
            temp@,
            ordered as nat,
            unordered as nat,
        ),
{
    let mut b = TextBuilder::new();
    b.push_str("{\"count\":");
    b.push_nat(count as u64);
    b.push_str(",\"cat\":\"");
    b.push_str(category);
    b.push_str("\",\"type\":\"");
    b.push_str(arch);
    b.push_str("\",\"temp\":");
    b.push_str(temp);
    b.push_str(",\"ordered\":");
    b.push_nat(ordered as u64);
    b.push_str(",\"unordered\":");
    b.push_nat(unordered as u64);
    b.push_str("}\n");
    b.finish()
}


/// The summary line of the message-passing probe.
pub fn message_passing_summary_record(temp: &str, ordered: usize, unordered: usize) -> (line: String)
    ensures
        line@ == message_passing_summary_line(temp@, ordered as nat, unordered as nat),
{
    let mut b = TextBuilder::new();
    b.push_str("{cat:\"summary\",type:\"aarch\",temp:");
    b.push_str(temp);
    b.push_str(",ordered:");
    b.push_nat(ordered as u64);
    b.push_str(",unordered:");
    b.push_nat(unordered as u64);
    b.push_str("}\n");
    b.finish()
}

/// The last summary line of the message-passing probe, which is followed by
/// two tabs.
pub fn message_passing_closing_record(temp: &str, ordered: usize, unordered: usize) -> (line: String)
    ensures
        line@ == message_passing_summary_line(temp@, ordered as nat, unordered as nat) + "\t\t"@,
{
    let mut b = TextBuilder::new();
    b.push_str("{cat:\"summary\",type:\"aarch\",temp:");
    b.push_str(temp);
    b.push_str(",ordered:");
    b.push_nat(ordered as u64);
    b.push_str(",unordered:");
    b.push_nat(unordered as u64);
    b.push_str("}\n");
    b.push_str("\t\t");
    b.finish()
}

/// The line the message-passing probe writes when reader `id` saw `observed`
/// in round `round` of `size`.
pub fn message_passing_reorder_record(
    temp: &str,
    id: usize,
    size: usize,
    round: usize,
    observed: usize,
) -> (line: String)
    ensures
        line@ == message_passing_reorder_line(
            temp@,
            id as nat,
            size as nat,
            round as nat,
            observed as nat,
        ),
{
    let mut b = TextBuilder::new();
    b.push_str("{\"cat:\"immd\",type:\"aarch\",\"temp\":");
    b.push_str(temp);
    b.push_str(",\"id\":");
    b.push_nat(id as u64);
    b.push_str(",\"size\":");
    b.push_nat(size as u64);
    b.push_str(",\"i\":");
    b.push_nat(round as u64);
    b.push_str(",\"observed\":");
    b.push_nat(observed as u64);
    b.push_str("}\n");
    b.finish()
}


/// Equal texts that share a prefix and a suffix agree in between.
proof fn lemma_middle_injective(p: Seq<char>, a: Seq<char>, b: Seq<char>, q: Seq<char>)
    requires
        p + a + q == p + b + q,
    ensures
        a == b,
{
    let x = p + a + q;
    let y = p + b + q;
    assert(a.len() == b.len()) by {
        assert(x.len() == y.len());
    }
    assert(a =~= x.subrange(p.len() as int, (p.len() + a.len()) as int));
    assert(b =~= y.subrange(p.len() as int, (p.len() + b.len()) as int));
}

/// Law: the category, the architecture and the temperature each appear in a
/// store-buffering line as given: lines that differ in one of them differ.
pub proof fn law_store_buffer_line_keeps_fields(
    count: nat,
    category: Seq<char>,
    category2: Seq<char>,
    arch: Seq<char>,
    arch2: Seq<char>,
    temp: Seq<char>,
    temp2: Seq<char>,
    ordered: nat,
    unordered: nat,
)
    ensures
        store_buffer_line(count, category, arch, temp, ordered, unordered) == store_buffer_line(
            count,
            category2,
            arch,
            temp,
            ordered,
            unordered,
        ) ==> category == category2,
        store_buffer_line(count, category, arch, temp, ordered, unordered) == store_buffer_line(
            count,
            category,
            arch2,
            temp,
            ordered,
            unordered,
        ) ==> arch == arch2,
        store_buffer_line(count, category, arch, temp, ordered, unordered) == store_buffer_line(
            count,
            category,
            arch,
            temp2,
            ordered,
            unordered,
        ) ==> temp == temp2,
{
    let tail = ",\"ordered\":"@ + nat_text(ordered) + ",\"unordered\":"@ + nat_text(unordered)
        + "}\n"@;
    let head = "{\"count\":"@ + nat_text(count) + ",\"cat\":\""@;
    let line = |c: Seq<char>, a: Seq<char>, t: Seq<char>|
        store_buffer_line(count, c, a, t, ordered, unordered);
    assert forall|c: Seq<char>| #[trigger] line(c, arch, temp) =~= head + c + ("\",\"type\":\""@
        + arch + "\",\"temp\":"@ + temp + tail) by {}
    assert forall|a: Seq<char>| #[trigger] line(category, a, temp) =~= (head + category
        + "\",\"type\":\""@) + a + ("\",\"temp\":"@ + temp + tail) by {}
    assert forall|t: Seq<char>| #[trigger] line(category, arch, t) =~= (head + category
        + "\",\"type\":\""@ + arch + "\",\"temp\":"@) + t + tail by {}
    if line(category, arch, temp) == line(category2, arch, temp) {
        assert(line(category2, arch, temp) == line(category2, arch, temp));
        lemma_middle_injective(
            head,
            category,
            category2,
            "\",\"type\":\""@ + arch + "\",\"temp\":"@ + temp + tail,
        );
    }
    if line(category, arch, temp) == line(category, arch2, temp) {
        assert(line(category, arch2, temp) == line(category, arch2, temp));
        lemma_middle_injective(
            head + category + "\",\"type\":\""@,
            arch,
            arch2,
            "\",\"temp\":"@ + temp + tail,
        );
    }
    if line(category, arch, temp) == line(category, arch, temp2) {
        assert(line(category, arch, temp2) == line(category, arch, temp2));
        lemma_middle_injective(
            head + category + "\",\"type\":\""@ + arch + "\",\"temp\":"@,
            temp,
            temp2,
            tail,
        );
    }
}


/// Law: the temperature appears in the message-passing lines as given: lines
/// for different temperatures differ.
pub proof fn law_message_passing_lines_keep_temp(
    temp: Seq<char>,
    temp2: Seq<char>,
    ordered: nat,
    unordered: nat,
    id: nat,
    size: nat,
    round: nat,
    observed: nat,
)
    ensures
        message_passing_summary_line(temp, ordered, unordered) == message_passing_summary_line(
            temp2,
            ordered,
            unordered,
        ) ==> temp == temp2,
        message_passing_reorder_line(temp, id, size, round, observed)
            == message_passing_reorder_line(temp2, id, size, round, observed) ==> temp == temp2,
{
    let h1 = "{cat:\"summary\",type:\"aarch\",temp:"@;
    let t1 = ",ordered:"@ + nat_text(ordered) + ",unordered:"@ + nat_text(unordered) + "}\n"@;
    let h2 = "{\"cat:\"immd\",type:\"aarch\",\"temp\":"@;
    let t2 = ",\"id\":"@ + nat_text(id) + ",\"size\":"@ + nat_text(size) + ",\"i\":"@ + nat_text(
        round,
    ) + ",\"observed\":"@ + nat_text(observed) + "}\n"@;
    assert forall|t: Seq<char>| #[trigger] message_passing_summary_line(t, ordered, unordered)
        =~= h1 + t + t1 by {}
    assert forall|t: Seq<char>| #[trigger] message_passing_reorder_line(t, id, size, round, observed)
        =~= h2 + t + t2 by {}
    if message_passing_summary_line(temp, ordered, unordered) == message_passing_summary_line(
        temp2,
        ordered,
        unordered,
    ) {
        lemma_middle_injective(h1, temp, temp2, t1);
    }
    if message_passing_reorder_line(temp, id, size, round, observed)
        == message_passing_reorder_line(temp2, id, size, round, observed) {
        lemma_middle_injective(h2, temp, temp2, t2);
    }
}

} // verus!
