use vstd::prelude::*;

use crate::text::concat_all;

verus! {

/// One step of a depth-first walk over an HTML subtree: a node is opened (a text
/// node, an element with its tag name and `href` attribute, or a node of another
/// kind), or the most recently opened node that is still open is closed.
#[derive(Clone, Debug)]
pub enum DomEvent {
    Text(String),
    Element { name: String, href: Option<String> },
    Other,
    Close,
}

/// An anchor whose contents are being gathered: its `href`, the text seen inside it,
/// and how many of its nodes are open (itself included).
pub struct AnchorState {
    pub href: Seq<char>,
    pub text: Seq<char>,
    pub depth: nat,
}

/// The extractor's state between events: whether the current run of line breaks has
/// already produced its separator, and the anchor being gathered, if any.
pub struct ExtractState {
    pub skipping: bool,
    pub anchor: Option<AnchorState>,
}

pub open spec fn is_anchor_name(n: Seq<char>) -> bool {
    n == seq!['a']
}

pub open spec fn is_break_name(n: Seq<char>) -> bool {
    n == seq!['b', 'r']
}

/// The chunk that stands for an anchor: `[text](href)`.
pub open spec fn anchor_chunk(text: Seq<char>, href: Seq<char>) -> Seq<char> {
    seq!['['] + text + seq![']', '('] + href + seq![')']
}

pub open spec fn outside() -> ExtractState {
    ExtractState { skipping: false, anchor: None }
}

/// One event: the next state and the chunk produced, if any.
pub open spec fn extract_step(st: ExtractState, e: DomEvent, sep: Seq<char>) -> (
    ExtractState,
    Option<Seq<char>>,
) {
    match st.anchor {
        Some(a) => match e {
            DomEvent::Close => if a.depth <= 1 {
                (ExtractState { skipping: st.skipping, anchor: None }, Some(anchor_chunk(a.text, a.href)))
            } else {
                (
                    ExtractState {
                        anchor: Some(AnchorState { depth: (a.depth - 1) as nat, ..a }),
                        ..st
                    },
                    None,
                )
            },
            DomEvent::Text(t) => (
                ExtractState {
                    anchor: Some(AnchorState { text: a.text + t@, depth: a.depth + 1, ..a }),
                    ..st
                },
                None,
            ),
            _ => (
                ExtractState { anchor: Some(AnchorState { depth: a.depth + 1, ..a }), ..st },
                None,
            ),
        },
        None => match e {
            DomEvent::Text(t) => (outside(), Some(t@)),
            DomEvent::Element { name, href } => if is_anchor_name(name@) && href is Some {
                (
                    ExtractState {
                        skipping: false,
                        anchor: Some(
                            AnchorState { href: href->Some_0@, text: Seq::empty(), depth: 1 },
                        ),
                    },
                    None,
                )
            } else if is_break_name(name@) {
                if st.skipping {
                    (st, None)
                } else {
                    (ExtractState { skipping: true, anchor: None }, Some(sep))
                }
            } else {
                (outside(), None)
            },
            DomEvent::Other => (outside(), None),
            DomEvent::Close => (st, None),
        },
    }
}

/// The chunks produced by the events `ev` from state `st`, in order.
pub open spec fn extract_run(ev: Seq<DomEvent>, st: ExtractState, sep: Seq<char>) -> Seq<
    Seq<char>,
>
    decreases ev.len(),
{
    if ev.len() == 0 {
        Seq::empty()
    } else {
        let (st2, out) = extract_step(st, ev[0], sep);
        match out {
            Some(c) => seq![c] + extract_run(ev.drop_first(), st2, sep),
            None => extract_run(ev.drop_first(), st2, sep),
        }
    }
}

/// The chunks of text of a walk over a subtree.
pub open spec fn text_chunks(ev: Seq<DomEvent>, sep: Seq<char>) -> Seq<Seq<char>> {
    extract_run(ev, outside(), sep)
}

/// The state after the events `ev`, from state `st`.
pub open spec fn extract_final(ev: Seq<DomEvent>, st: ExtractState, sep: Seq<char>) -> ExtractState
    decreases ev.len(),
{
    if ev.len() == 0 {
        st
    } else {
        extract_final(ev.drop_first(), extract_step(st, ev[0], sep).0, sep)
    }
}

/// The chunks of one more event are those of the events before it, then what that
/// event produces.
pub proof fn lemma_extract_push(ev: Seq<DomEvent>, e: DomEvent, st: ExtractState, sep: Seq<char>)
    ensures
        extract_final(ev.push(e), st, sep) == extract_step(extract_final(ev, st, sep), e, sep).0,
        extract_run(ev.push(e), st, sep) == match extract_step(
            extract_final(ev, st, sep),
            e,
            sep,
        ).1 {
            Some(c) => extract_run(ev, st, sep).push(c),
            None => extract_run(ev, st, sep),
        },
    decreases ev.len(),
{
    let all = ev.push(e);
    if ev.len() == 0 {
        let rest = all.drop_first();
        assert(rest =~= Seq::<DomEvent>::empty());
        assert(all[0] == e);
        assert(extract_final(ev, st, sep) == st);
        assert(extract_run(ev, st, sep) == Seq::<Seq<char>>::empty());
        assert(extract_final(rest, extract_step(st, e, sep).0, sep) == extract_step(st, e, sep).0);
        assert(extract_run(rest, extract_step(st, e, sep).0, sep) == Seq::<Seq<char>>::empty());
        match extract_step(st, e, sep).1 {
            Some(c) => {
                assert(seq![c] + Seq::<Seq<char>>::empty() =~= Seq::<Seq<char>>::empty().push(c));
            },
            None => {},
        }
    } else {
        let st2 = extract_step(st, ev[0], sep).0;
        let rest = all.drop_first();
        assert(rest =~= ev.drop_first().push(e));
        assert(all[0] == ev[0]);
        lemma_extract_push(ev.drop_first(), e, st2, sep);
        assert(extract_final(all, st, sep) == extract_final(rest, st2, sep));
        assert(extract_final(ev, st, sep) == extract_final(ev.drop_first(), st2, sep));
        match extract_step(st, ev[0], sep).1 {
            Some(c0) => {
                match extract_step(extract_final(ev, st, sep), e, sep).1 {
                    Some(c) => {
                        assert(seq![c0] + extract_run(ev.drop_first(), st2, sep).push(c) =~= (
                        seq![c0] + extract_run(ev.drop_first(), st2, sep)).push(c));
                    },
                    None => {},
                }
            },
            None => {},
        }
    }
}

/// A run of line-break elements, each opened and closed, with nothing between them.
pub open spec fn is_break_run(ev: Seq<DomEvent>) -> bool
    decreases ev.len(),
{
    if ev.len() == 0 {
        true
    } else {
        &&& ev.len() >= 2
        &&& ev[0] matches DomEvent::Element { name, .. } && is_break_name(name@)
        &&& ev[1] is Close
        &&& is_break_run(ev.subrange(2, ev.len() as int))
    }
}

proof fn lemma_break_run_silent(ev: Seq<DomEvent>, rest: Seq<DomEvent>, sep: Seq<char>)
    requires
        is_break_run(ev),
    ensures
        extract_run(ev + rest, ExtractState { skipping: true, anchor: None }, sep) == extract_run(
            rest,
            ExtractState { skipping: true, anchor: None },
            sep,
        ),
    decreases ev.len(),
{
    if ev.len() == 0 {
        assert(ev + rest =~= rest);
    } else {
        let tail = ev.subrange(2, ev.len() as int);
        let all = ev + rest;
        let on = ExtractState { skipping: true, anchor: None };
        assert(all[0] == ev[0]);
        assert(all.drop_first()[0] == ev[1]);
        assert(all.drop_first().drop_first() =~= tail + rest);
        if let DomEvent::Element { name, .. } = ev[0] {
            assert(!is_anchor_name(name@)) by {
                assert(name@.len() != seq!['a'].len());
            }
        }
        assert(extract_step(on, ev[0], sep) == (on, None::<Seq<char>>));
        assert(extract_step(on, ev[1], sep) == (on, None::<Seq<char>>));
        assert(extract_run(all, on, sep) == extract_run(all.drop_first(), on, sep));
        assert(extract_run(all.drop_first(), on, sep) == extract_run(tail + rest, on, sep));
        lemma_break_run_silent(tail, rest, sep);
    }
}

/// A run of any number (at least one) of consecutive line-break elements, met outside
/// an anchor and after something other than a line break, produces exactly one
/// separator chunk.
pub proof fn lemma_break_run_one_separator(
    ev: Seq<DomEvent>,
    rest: Seq<DomEvent>,
    st: ExtractState,
    sep: Seq<char>,
)
    requires
        ev.len() > 0,
        is_break_run(ev),
        st.anchor is None,
        !st.skipping,
    ensures
        extract_run(ev + rest, st, sep) == seq![sep] + extract_run(
            rest,
            ExtractState { skipping: true, anchor: None },
            sep,
        ),
{
    let tail = ev.subrange(2, ev.len() as int);
    let all = ev + rest;
    let on = ExtractState { skipping: true, anchor: None };
    assert(all[0] == ev[0]);
    assert(all.drop_first()[0] == ev[1]);
    assert(all.drop_first().drop_first() =~= tail + rest);
    if let DomEvent::Element { name, .. } = ev[0] {
        assert(!is_anchor_name(name@)) by {
            assert(name@.len() != seq!['a'].len());
        }
    }
    assert(extract_step(st, ev[0], sep) == (on, Some(sep)));
    assert(extract_run(all.drop_first(), on, sep) == extract_run(tail + rest, on, sep));
    lemma_break_run_silent(tail, rest, sep);
}

/// How an event changes the number of open nodes.
pub open spec fn depth_change(e: DomEvent) -> int {
    if e is Close {
        -1
    } else {
        1
    }
}

/// From `d` open nodes, the events never close the outermost one.
pub open spec fn keeps_open(ev: Seq<DomEvent>, d: int) -> bool
    decreases ev.len(),
{
    ev.len() == 0 || (d + depth_change(ev[0]) >= 1 && keeps_open(
        ev.drop_first(),
        d + depth_change(ev[0]),
    ))
}

/// The number of open nodes after the events, starting from `d`.
pub open spec fn depth_after(ev: Seq<DomEvent>, d: int) -> int
    decreases ev.len(),
{
    if ev.len() == 0 {
        d
    } else {
        depth_after(ev.drop_first(), d + depth_change(ev[0]))
    }
}

/// The text nodes among the events, concatenated.
pub open spec fn texts_of(ev: Seq<DomEvent>) -> Seq<char>
    decreases ev.len(),
{
    if ev.len() == 0 {
        Seq::empty()
    } else {
        match ev[0] {
            DomEvent::Text(t) => t@ + texts_of(ev.drop_first()),
            _ => texts_of(ev.drop_first()),
        }
    }
}

proof fn lemma_inside_anchor(
    ev: Seq<DomEvent>,
    rest: Seq<DomEvent>,
    st: ExtractState,
    a: AnchorState,
    sep: Seq<char>,
)
    requires
        st.anchor == Some(a),
        a.depth >= 1,
        keeps_open(ev, a.depth as int),
    ensures
        depth_after(ev, a.depth as int) >= 1,
        extract_run(ev + rest, st, sep) == extract_run(
            rest,
            ExtractState {
                anchor: Some(
                    AnchorState {
                        text: a.text + texts_of(ev),
                        depth: depth_after(ev, a.depth as int) as nat,
                        ..a
                    },
                ),
                ..st
            },
            sep,
        ),
    decreases ev.len(),
{
    if ev.len() == 0 {
        assert(ev + rest =~= rest);
        assert(a.text + texts_of(ev) =~= a.text);
    } else {
        let tail = ev.drop_first();
        assert((ev + rest).drop_first() =~= tail + rest);
        let d2 = a.depth + depth_change(ev[0]);
        let a2 = match ev[0] {
            DomEvent::Text(t) => AnchorState { text: a.text + t@, depth: d2 as nat, ..a },
            _ => AnchorState { depth: d2 as nat, ..a },
        };
        let st2 = ExtractState { anchor: Some(a2), ..st };
        assert(extract_step(st, ev[0], sep) == (st2, None::<Seq<char>>));
        lemma_inside_anchor(tail, rest, st2, a2, sep);
        match ev[0] {
            DomEvent::Text(t) => {
                assert(a.text + t@ + texts_of(tail) =~= a.text + texts_of(ev));
            },
            _ => {},
        }
    }
}

/// The text inside an anchor with an `href` appears exactly once: inside the anchor's
/// own chunk `[text](href)`, and never as a chunk of its own.
pub proof fn lemma_anchor_text_once(
    name: String,
    href: String,
    inner: Seq<DomEvent>,
    rest: Seq<DomEvent>,
    st: ExtractState,
    sep: Seq<char>,
)
    requires
        is_anchor_name(name@),
        st.anchor is None,
        keeps_open(inner, 1),
        depth_after(inner, 1) == 1,
    ensures
        extract_run(
            seq![DomEvent::Element { name, href: Some(href) }] + inner + seq![DomEvent::Close]
                + rest,
            st,
            sep,
        ) == seq![anchor_chunk(texts_of(inner), href@)] + extract_run(rest, outside(), sep),
{
    let open = DomEvent::Element { name, href: Some(href) };
    let all = seq![open] + inner + seq![DomEvent::Close] + rest;
    let a = AnchorState { href: href@, text: Seq::empty(), depth: 1 };
    let st1 = ExtractState { skipping: false, anchor: Some(a) };
    assert(all.drop_first() =~= inner + (seq![DomEvent::Close] + rest));
    lemma_inside_anchor(inner, seq![DomEvent::Close] + rest, st1, a, sep);
    assert((seq![DomEvent::Close] + rest).drop_first() =~= rest);
    assert(Seq::<char>::empty() + texts_of(inner) =~= texts_of(inner));
}

/// The extractor's state machine: it takes the events of a walk one at a time and
/// keeps only a flag for the current run of line breaks and, inside an anchor, the
/// anchor's `href`, its text so far and its depth.
pub struct TextMachine {
    separator: String,
    fed: u128,
    skipping: bool,
    in_anchor: bool,
    anchor_href: String,
    anchor_text: String,
    depth: u128,
}

impl TextMachine {
    pub closed spec fn state(&self) -> ExtractState {
        ExtractState {
            skipping: self.skipping,
            anchor: if self.in_anchor {
                Some(
                    AnchorState {
                        href: self.anchor_href@,
                        text: self.anchor_text@,
                        depth: self.depth as nat,
                    },
                )
            } else {
                None
            },
        }
    }

    pub closed spec fn separator(&self) -> Seq<char> {
        self.separator@
    }

    /// How many events the machine has taken.
    pub closed spec fn fed(&self) -> nat {
        self.fed as nat
    }

    pub closed spec fn wf(&self) -> bool {
        self.in_anchor ==> 1 <= self.depth <= self.fed
    }

    pub fn new(separator: &str) -> (r: TextMachine)
        ensures
            r.wf(),
            r.state() == outside(),
            r.separator() == separator@,
            r.fed() == 0,
    {
        TextMachine {
            separator: separator.to_owned(),
            fed: 0,
            skipping: false,
            in_anchor: false,
            anchor_href: String::new(),
            anchor_text: String::new(),
            depth: 0,
        }
    }

    fn is_anchor_tag(n: &String) -> (r: bool)
        ensures
            r == is_anchor_name(n@),
    {
        let ok = n.as_str().unicode_len() == 1 && n.as_str().get_char(0) == 'a';
        assert(ok ==> n@ =~= seq!['a']);
        ok
    }

    fn is_break_tag(n: &String) -> (r: bool)
        ensures
            r == is_break_name(n@),
    {
        let ok = n.as_str().unicode_len() == 2 && n.as_str().get_char(0) == 'b'
            && n.as_str().get_char(1) == 'r';
        assert(ok ==> n@ =~= seq!['b', 'r']);
        ok
    }

    /// Takes one event: the chunk it completes, if any.
    pub fn feed(&mut self, e: &DomEvent) -> (r: Option<String>)
        requires
            old(self).wf(),
            old(self).fed() < u128::MAX,
        ensures
            final(self).wf(),
            final(self).separator() == old(self).separator(),
            final(self).fed() == old(self).fed() + 1,
            ({
                let (st2, out) = extract_step(old(self).state(), *e, old(self).separator());
                &&& final(self).state() == st2
                &&& match out {
                    Some(c) => r is Some && r->Some_0@ == c,
                    None => r is None,
                }
            }),
    {
        self.fed = self.fed + 1;
        if self.in_anchor {
            match e {
                DomEvent::Close => {
                    if self.depth <= 1 {
                        self.in_anchor = false;
                        let mut chunk = String::new();
                        chunk.append("[");
                        chunk.append(self.anchor_text.as_str());
                        chunk.append("](");
                        chunk.append(self.anchor_href.as_str());
                        chunk.append(")");
                        proof {
                            reveal_strlit("[");
                            reveal_strlit("](");
                            reveal_strlit(")");
                            assert(chunk@ =~= anchor_chunk(self.anchor_text@, self.anchor_href@));
                        }
                        Some(chunk)
                    } else {
                        self.depth = self.depth - 1;
                        None
                    }
                },
                DomEvent::Text(t) => {
                    self.anchor_text.append(t.as_str());
                    self.depth = self.depth + 1;
                    None
                },
                _ => {
                    self.depth = self.depth + 1;
                    None
                },
            }
        } else {
            match e {
                DomEvent::Text(t) => {
                    self.skipping = false;
                    Some(t.clone())
                },
                DomEvent::Element { name, href } => {
                    if Self::is_anchor_tag(name) && href.is_some() {
                        self.skipping = false;
                        self.in_anchor = true;
                        self.anchor_href = href.clone().unwrap();
                        self.anchor_text = String::new();
                        self.depth = 1;
                        None
                    } else if Self::is_break_tag(name) {
                        if self.skipping {
                            None
                        } else {
                            self.skipping = true;
                            Some(self.separator.clone())
                        }
                    } else {
                        self.skipping = false;
                        None
                    }
                },
                DomEvent::Other => {
                    self.skipping = false;
                    None
                },
                DomEvent::Close => None,
            }
        }
    }
}

/// A pull-based walk over the events of a subtree that yields its chunks of text.
///
/// Text nodes are produced as they are; an anchor with an `href` is produced once,
/// as `[text](href)`, when it closes, and nothing inside it is produced on its own; a
/// run of consecutive line breaks produces the separator once.
pub struct NewsText {
    events: Vec<DomEvent>,
    pos: usize,
    machine: TextMachine,
}

impl NewsText {
    pub closed spec fn wf(&self) -> bool {
        &&& self.machine.wf()
        &&& self.machine.fed() == self.pos
        &&& self.pos <= self.events.len()
    }

    /// The chunks that are still to come.
    pub closed spec fn remaining(&self) -> Seq<Seq<char>> {
        extract_run(
            self.events@.subrange(self.pos as int, self.events.len() as int),
            self.machine.state(),
            self.machine.separator(),
        )
    }

    pub fn new(events: Vec<DomEvent>, separator: &str) -> (r: NewsText)
        ensures
            r.wf(),
            r.remaining() == text_chunks(events@, separator@),
    {
        let r = NewsText { events, pos: 0, machine: TextMachine::new(separator) };
        assert(r.events@.subrange(0, r.events.len() as int) =~= r.events@);
        r
    }

    /// The next chunk of text, or `None` once the walk is over.
    pub fn next(&mut self) -> (r: Option<String>)
        requires
            old(self).wf(),
        ensures
            final(self).wf(),
            old(self).remaining().len() == 0 ==> r is None && final(self).remaining()
                == old(self).remaining(),
            old(self).remaining().len() > 0 ==> r is Some && r->Some_0@ == old(
                self,
            ).remaining()[0] && final(self).remaining() == old(self).remaining().drop_first(),
    {
        let ghost start = self.remaining();
        while self.pos < self.events.len()
            invariant
                self.wf(),
                self.remaining() == start,
                start == old(self).remaining(),
            decreases self.events.len() - self.pos,
        {
            let i = self.pos;
            let ghost ev = self.events@.subrange(i as int, self.events.len() as int);
            let ghost st0 = self.machine.state();
            proof {
                assert(ev.drop_first() =~= self.events@.subrange(i + 1, self.events.len() as int));
                assert(ev[0] == self.events@[i as int]);
            }
            let out = self.machine.feed(&self.events[i]);
            self.pos = i + 1;
            if out.is_some() {
                proof {
                    assert(start == extract_run(ev, st0, self.machine.separator()));
                    assert(self.remaining() == extract_run(
                        ev.drop_first(),
                        self.machine.state(),
                        self.machine.separator(),
                    ));
                    assert(start == seq![out->Some_0@] + self.remaining());
                    assert(start.drop_first() =~= self.remaining());
                }
                return out;
            }
        }
        proof {
            assert(self.events@.subrange(self.pos as int, self.events.len() as int)
                =~= Seq::<DomEvent>::empty());
        }
        None
    }
}

/// The text of a walk: all its chunks, concatenated.
pub fn collect_text(events: Vec<DomEvent>, separator: &str) -> (r: String)
    ensures
        r@ == concat_all(text_chunks(events@, separator@)),
{
    let ghost all = text_chunks(events@, separator@);
    let mut it = NewsText::new(events, separator);
    let mut acc = String::new();
    let ghost mut produced: Seq<Seq<char>> = Seq::empty();
    loop
        invariant
            it.wf(),
            all == text_chunks(events@, separator@),
            produced + it.remaining() == all,
            acc@ == concat_all(produced),
        decreases it.remaining().len(),
    {
        let ghost before = it.remaining();
        match it.next() {
            Some(c) => {
                proof {
                    assert(produced.push(c@).drop_last() =~= produced);
                    assert(produced.push(c@) + it.remaining() =~= produced + before);
                    produced = produced.push(c@);
                }
                acc.append(c.as_str());
            },
            None => {
                assert(before.len() == 0);
                assert(produced + before =~= produced);
                assert(produced == all);
                return acc;
            },
        }
    }
}

} // verus!
