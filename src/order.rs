//! Putting results that arrive in any order back into configured order, and
//! the report text built from them.

use vstd::prelude::*;
use vstd::string::*;
use crate::config::Service;
use crate::text::{bold, bold_text};

verus! {

/// Results tagged with the position they belong to: exactly one result for
/// each position below `n`, in any order.
pub open spec fn tags_cover<T>(c: Seq<(usize, T)>, n: nat) -> bool {
    &&& c.len() == n
    &&& forall|k: int| 0 <= k < c.len() ==> (#[trigger] c[k]).0 < n
    &&& forall|k: int, l: int| 0 <= k < c.len() && 0 <= l < c.len() && k != l ==> (#[trigger] c[k]).0
        != (#[trigger] c[l]).0
    &&& forall|i: int| 0 <= i < n ==> #[trigger] has_tag(c, i)
}

/// Whether some result is tagged with position `i`.
pub open spec fn has_tag<T>(c: Seq<(usize, T)>, i: int) -> bool {
    exists|k: int| 0 <= k < c.len() && (#[trigger] c[k]).0 == i
}

/// The result tagged with position `i`.
pub open spec fn slot_of<T>(c: Seq<(usize, T)>, i: int) -> T {
    c[choose|k: int| 0 <= k < c.len() && (#[trigger] c[k]).0 == i].1
}

proof fn lemma_slot_of<T>(c: Seq<(usize, T)>, n: nat, k: int)
    requires
        tags_cover(c, n),
        0 <= k < c.len(),
    ensures
        slot_of(c, c[k].0 as int) == c[k].1,
{
    let i = c[k].0 as int;
    assert(has_tag(c, i));
    let j = choose|j: int| 0 <= j < c.len() && (#[trigger] c[j]).0 == i;
    assert(c[j].0 == c[k].0);
}

/// Puts each result into the position it is tagged with.
pub fn place_in_slots<T>(n: usize, completions: Vec<(usize, T)>) -> (r: Vec<T>)
    requires
        tags_cover(completions@, n as nat),
    ensures
        r@ == Seq::new(n as nat, |i: int| slot_of(completions@, i)),
{
    let ghost c = completions@;
    let mut slots: Vec<Option<T>> = Vec::new();
    let mut i: usize = 0;
    while i < n
        invariant
            i <= n,
            slots@.len() == i,
            forall|j: int| 0 <= j < i ==> (#[trigger] slots@[j]) is None,
        decreases n - i,
    {
        slots.push(None);
        i += 1;
    }
    let mut rest = completions;
    while rest.len() > 0
        invariant
            tags_cover(c, n as nat),
            slots@.len() == n,
            rest@.len() <= c.len(),
            rest@ == c.subrange(0, rest@.len() as int),
            forall|k: int| rest@.len() <= k < c.len() ==> slots@[(#[trigger] c[k]).0 as int] == Some(
                c[k].1,
            ),
        decreases rest@.len(),
    {
        let ghost m = rest@.len() - 1;
        let (p, v) = rest.pop().unwrap();
        assert(c[m] == (p, v));
        assert(c[m].0 < n);
        slots.set(p, Some(v));
        assert forall|k: int| rest@.len() <= k < c.len() implies slots@[(#[trigger] c[k]).0 as int]
            == Some(c[k].1) by {
            if k != m {
                assert(c[k].0 != c[m].0);
            }
        }
        assert(rest@ =~= c.subrange(0, rest@.len() as int));
    }
    assert forall|j: int| 0 <= j < n implies slots@[j] == Some(slot_of(c, j)) by {
        assert(has_tag(c, j));
        let k = choose|k: int| 0 <= k < c.len() && (#[trigger] c[k]).0 == j;
        lemma_slot_of(c, n as nat, k);
    }
    let mut r: Vec<T> = Vec::new();
    let mut i: usize = 0;
    while i < n
        invariant
            i <= n,
            slots@.len() == n,
            r@.len() == i,
            forall|j: int| 0 <= j < i ==> r@[j] == slot_of(c, j),
            forall|j: int| i <= j < n ==> slots@[j] == Some(slot_of(c, j)),
        decreases n - i,
    {
        let mut taken: Option<T> = None;
        slots.set_and_swap(i, &mut taken);
        if let Some(v) = taken {
            r.push(v);
        }
        i += 1;
    }
    assert(r@ =~= Seq::new(n as nat, |i: int| slot_of(c, i)));
    r
}

/// The characters of each string.
pub open spec fn texts(v: Seq<String>) -> Seq<Seq<char>> {
    v.map_values(|s: String| s@)
}

/// `n` dashes.
pub open spec fn dashes(n: nat) -> Seq<char> {
    Seq::new(n, |i: int| '-')
}

/// The block that opens a service: a blank line, then `name - description`
/// in bold inside a box.
pub open spec fn header_lines(name: Seq<char>, desc: Seq<char>) -> Seq<Seq<char>> {
    let content = name + " - "@ + desc;
    let border = "+"@ + dashes(content.len() + 2) + "+"@;
    seq![" "@, border, "| "@ + bold(content) + " |"@, border]
}

fn border_line(width: usize) -> (r: String)
    requires
        width + 2 <= usize::MAX,
    ensures
        r@ == "+"@ + dashes((width + 2) as nat) + "+"@,
{
    let mut r = String::from_str("+");
    let mut i: usize = 0;
    let ghost start = r@;
    while i < width + 2
        invariant
            r@ == start + dashes(i as nat),
            i <= width + 2,
            width + 2 <= usize::MAX,
        decreases width + 2 - i,
    {
        r.append("-");
        proof {
            reveal_strlit("-");
        }
        assert(start + dashes((i + 1) as nat) =~= start + dashes(i as nat) + "-"@);
        i += 1;
    }
    r.append("+");
    r
}

/// The lines of one service: its header, then its items' fragments in the
/// order of its items.
pub open spec fn service_lines(s: Service, c: Seq<(usize, String)>) -> Seq<Seq<char>> {
    header_lines(s.name@, s.desc@) + texts(Seq::new(s.cilist@.len(), |i: int| slot_of(c, i)))
}

impl Service {
    /// Lines that report the service, from its items' fragments, each tagged
    /// with its item's position, in the order the probes finished.
    pub fn collect_srv_status_lines(&self, completions: Vec<(usize, String)>) -> (r: Vec<String>)
        requires
            tags_cover(completions@, self.cilist@.len()),
            self.name@.len() + self.desc@.len() + 5 <= usize::MAX,
        ensures
            texts(r@) == service_lines(*self, completions@),
    {
        let ghost c = completions@;
        let mut content = self.name.clone();
        content.append(" - ");
        content.append(self.desc.as_str());
        proof {
            reveal_strlit(" - ");
        }
        let width = content.as_str().unicode_len();
        let mut lines: Vec<String> = Vec::new();
        lines.push(String::from_str(" "));
        lines.push(border_line(width));
        let mut middle = String::from_str("| ");
        let b = bold_text(content.as_str());
        middle.append(b.as_str());
        middle.append(" |");
        lines.push(middle);
        lines.push(border_line(width));
        assert(texts(lines@) =~= header_lines(self.name@, self.desc@));
        let mut fragments = place_in_slots(self.cilist.len(), completions);
        lines.append(&mut fragments);
        assert(texts(lines@) =~= service_lines(*self, c));
        lines
    }
}

/// Lines joined into text, each ended by a line feed.
pub open spec fn lines_text(ls: Seq<Seq<char>>) -> Seq<char>
    decreases ls.len(),
{
    if ls.len() == 0 {
        Seq::empty()
    } else {
        lines_text(ls.drop_last()) + ls.last() + "\n"@
    }
}

/// The report: the lines of every block, block after block.
pub open spec fn report_text(blocks: Seq<Seq<Seq<char>>>) -> Seq<char>
    decreases blocks.len(),
{
    if blocks.len() == 0 {
        Seq::empty()
    } else {
        report_text(blocks.drop_last()) + lines_text(blocks.last())
    }
}

/// The blocks of a report, each tagged with the position of its service.
pub open spec fn slotted_blocks(c: Seq<(usize, Vec<String>)>, n: nat) -> Seq<Seq<Seq<char>>> {
    Seq::new(n, |i: int| texts(slot_of(c, i)@))
}

/// Joins the services' blocks into the report, each block tagged with the
/// position of its service, in the order the services finished.
pub fn render_report(n: usize, completions: Vec<(usize, Vec<String>)>) -> (r: String)
    requires
        tags_cover(completions@, n as nat),
    ensures
        r@ == report_text(slotted_blocks(completions@, n as nat)),
{
    let ghost c = completions@;
    let blocks = place_in_slots(n, completions);
    let ghost bs = slotted_blocks(c, n as nat);
    let mut out = String::new();
    let mut i: usize = 0;
    while i < blocks.len()
        invariant
            i <= blocks@.len(),
            blocks@.len() == n,
            bs.len() == n,
            forall|j: int| 0 <= j < n ==> #[trigger] texts(blocks@[j]@) == bs[j],
            out@ == report_text(bs.subrange(0, i as int)),
        decreases blocks@.len() - i,
    {
        let block = &blocks[i];
        let ghost ls = texts(block@);
        let ghost before = out@;
        let mut j: usize = 0;
        while j < block.len()
            invariant
                j <= block@.len(),
                ls == texts(block@),
                out@ == before + lines_text(ls.subrange(0, j as int)),
            decreases block@.len() - j,
        {
            out.append(block[j].as_str());
            out.append("\n");
            assert(ls.subrange(0, j + 1).drop_last() =~= ls.subrange(0, j as int));
            j += 1;
        }
        assert(ls.subrange(0, block@.len() as int) =~= ls);
        assert(bs.subrange(0, i + 1).drop_last() =~= bs.subrange(0, i as int));
        i += 1;
    }
    assert(bs.subrange(0, n as int) =~= bs);
    out
}

/// Whatever order the items' probes finish in, a service's report lists the
/// items' fragments in the order of its items, under its header.
pub proof fn lemma_items_in_configured_order(
    s: Service,
    c: Seq<(usize, String)>,
    fragments: Seq<Seq<char>>,
)
    requires
        tags_cover(c, s.cilist@.len()),
        fragments.len() == s.cilist@.len(),
        forall|k: int| 0 <= k < c.len() ==> (#[trigger] c[k]).1@ == fragments[c[k].0 as int],
    ensures
        service_lines(s, c) == header_lines(s.name@, s.desc@) + fragments,
{
    let n = s.cilist@.len();
    let slots = texts(Seq::new(n, |i: int| slot_of(c, i)));
    assert forall|i: int| 0 <= i < n implies slots[i] == fragments[i] by {
        assert(has_tag(c, i));
        let k = choose|k: int| 0 <= k < c.len() && (#[trigger] c[k]).0 == i;
        lemma_slot_of(c, n, k);
    }
    assert(slots =~= fragments);
}

/// Two runs whose item results are the same but finish in different orders
/// report a service identically.
pub proof fn lemma_item_completion_order_irrelevant(
    s: Service,
    c1: Seq<(usize, String)>,
    c2: Seq<(usize, String)>,
)
    requires
        tags_cover(c1, s.cilist@.len()),
        tags_cover(c2, s.cilist@.len()),
        forall|k: int| 0 <= k < c1.len() ==> c2.contains(#[trigger] c1[k]),
    ensures
        service_lines(s, c1) == service_lines(s, c2),
{
    let n = s.cilist@.len();
    let fragments = texts(Seq::new(n, |i: int| slot_of(c2, i)));
    assert forall|k: int| 0 <= k < c1.len() implies (#[trigger] c1[k]).1@ == fragments[c1[k].0 as int] by {
        assert(c2.contains(c1[k]));
        let l = choose|l: int| 0 <= l < c2.len() && c2[l] == c1[k];
        lemma_slot_of(c2, n, l);
    }
    lemma_items_in_configured_order(s, c1, fragments);
    assert forall|k: int| 0 <= k < c2.len() implies (#[trigger] c2[k]).1@ == fragments[c2[k].0 as int] by {
        lemma_slot_of(c2, n, k);
    }
    lemma_items_in_configured_order(s, c2, fragments);
}

/// Whatever order the services finish in, the report holds their blocks in
/// the order of the services.
pub proof fn lemma_services_in_configured_order(
    n: nat,
    c: Seq<(usize, Vec<String>)>,
    blocks: Seq<Seq<Seq<char>>>,
)
    requires
        tags_cover(c, n),
        blocks.len() == n,
        forall|k: int| 0 <= k < c.len() ==> texts((#[trigger] c[k]).1@) == blocks[c[k].0 as int],
    ensures
        report_text(slotted_blocks(c, n)) == report_text(blocks),
{
    assert forall|i: int| 0 <= i < n implies slotted_blocks(c, n)[i] == blocks[i] by {
        assert(has_tag(c, i));
        let k = choose|k: int| 0 <= k < c.len() && (#[trigger] c[k]).0 == i;
        lemma_slot_of(c, n, k);
    }
    assert(slotted_blocks(c, n) =~= blocks);
}

} // verus!
