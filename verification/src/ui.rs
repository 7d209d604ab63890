//! The overlay: short messages, a timer, and lines of text from the server.
use vstd::prelude::*;

use crate::client::time::{parse_network_time, NetworkTime};
use crate::text::{push_decimal, push_two_digits};

verus! {

/// Nanoseconds for which a message is shown.
pub const TOAST_NANOS: u64 = 4_000_000_000;

/// What the server says about the overlay.
#[derive(Debug)]
pub struct UiApiRequest {
    pub ui: Option<UiRequest>,
}

#[derive(Debug)]
pub struct UiRequest {
    pub toast: Option<String>,
    /// When the timer started, or an empty text for no timer.
    pub timer: Option<String>,
    pub info: Option<Vec<String>>,
}

/// What waits to be shown, as the rules see it.
#[verifier::ext_equal]
pub struct ChannelModel {
    pub toasts: Seq<Seq<char>>,
    pub timer: Option<NetworkTime>,
    pub info: Seq<Seq<char>>,
}

/// What waits to be shown.
#[derive(Debug)]
pub struct WidgetChannel {
    /// Messages that have not been shown, oldest first.
    pub toasts: Vec<String>,
    pub timer: Option<NetworkTime>,
    pub info: Vec<String>,
}

impl View for WidgetChannel {
    type V = ChannelModel;

    open spec fn view(&self) -> ChannelModel {
        ChannelModel {
            toasts: crate::text::texts(self.toasts@),
            timer: self.timer,
            info: crate::text::texts(self.info@),
        }
    }
}

/// What waits to be shown after a request, where `timer` is the point in time that its text about
/// the timer gives.
pub open spec fn after_request(
    m: ChannelModel,
    req: UiRequest,
    timer: Option<NetworkTime>,
) -> ChannelModel {
    ChannelModel {
        toasts: match req.toast {
            Some(toast) => m.toasts.push(toast@),
            None => m.toasts,
        },
        timer: if req.timer is Some {
            timer
        } else {
            m.timer
        },
        info: match req.info {
            Some(info) => crate::text::texts(info@),
            None => m.info,
        },
    }
}

/// What waits to be shown with one more message.
pub open spec fn with_toast(m: ChannelModel, toast: Seq<char>) -> ChannelModel {
    ChannelModel { toasts: m.toasts.push(toast), ..m }
}

/// What waits to be shown once the messages are handed out, and those messages.
pub open spec fn handed_out(m: ChannelModel) -> (ChannelModel, Seq<Seq<char>>) {
    (ChannelModel { toasts: seq![], ..m }, m.toasts)
}

fn clone_lines(lines: &Vec<String>) -> (r: Vec<String>)
    ensures
        crate::text::texts(r@) == crate::text::texts(lines@),
{
    let mut out: Vec<String> = Vec::new();
    let mut i: usize = 0;
    while i < lines.len()
        invariant
            i <= lines@.len(),
            out@.len() == i,
            forall|k: int| 0 <= k < i ==> #[trigger] out@[k]@ == lines@[k]@,
        decreases lines@.len() - i,
    {
        out.push(lines[i].clone());
        i = i + 1;
    }
    assert(crate::text::texts(out@) =~= crate::text::texts(lines@));
    out
}

impl WidgetChannel {
    /// Nothing to show.
    pub fn new() -> (r: Self)
        ensures
            r@ == (ChannelModel { toasts: seq![], timer: None, info: seq![] }),
    {
        let r = WidgetChannel { toasts: Vec::new(), timer: None, info: Vec::new() };
        assert(r@.toasts =~= seq![]);
        assert(r@.info =~= seq![]);
        r
    }

    /// Shows a message after those that wait.
    pub fn show_toast(&mut self, toast: &str)
        ensures
            final(self)@ == with_toast(old(self)@, toast@),
    {
        let ghost before = self@.toasts;
        self.toasts.push(toast.to_owned());
        assert(self@.toasts =~= before.push(toast@));
    }

    /// Takes in a request, where `timer` is the point in time that its text about the timer
    /// gives.
    pub fn handle_request_with(&mut self, req: &UiRequest, timer: Option<NetworkTime>)
        ensures
            final(self)@ == after_request(old(self)@, *req, timer),
    {
        if let Some(toast) = &req.toast {
            self.show_toast(toast.as_str());
        }
        if req.timer.is_some() {
            self.timer = timer;
        }
        if let Some(info) = &req.info {
            self.info = clone_lines(info);
        }
    }

    /// Takes in a request.
    pub fn handle_request(&mut self, req: &UiRequest)
        ensures
            final(self)@ == after_request(
                old(self)@,
                *req,
                match req.timer {
                    Some(text) => crate::client::time::network_time(
                        text@,
                        crate::client::time::rfc3339_time(text@),
                    ),
                    None => None,
                },
            ),
    {
        let timer = match &req.timer {
            Some(text) => parse_network_time(text.as_str()),
            None => None,
        };
        self.handle_request_with(req, timer);
    }

    /// Hands out the messages that wait.
    pub fn recv(&mut self) -> (r: Vec<String>)
        ensures
            (final(self)@, crate::text::texts(r@)) == handed_out(old(self)@),
    {
        let mut out: Vec<String> = Vec::new();
        out.append(&mut self.toasts);
        assert(self@.toasts =~= seq![]);
        assert(crate::text::texts(out@) =~= old(self)@.toasts);
        out
    }
}

/// A message on the screen.
#[derive(Debug)]
pub struct Toast {
    /// When it appeared, in nanoseconds.
    pub since: u64,
    pub text: String,
}

/// A message on the screen as the rules see it.
#[verifier::ext_equal]
pub struct ToastModel {
    pub since: u64,
    pub text: Seq<char>,
}

impl View for Toast {
    type V = ToastModel;

    open spec fn view(&self) -> ToastModel {
        ToastModel { since: self.since, text: self.text@ }
    }
}

/// Messages as the rules see them.
pub open spec fn toast_models(toasts: Seq<Toast>) -> Seq<ToastModel> {
    toasts.map_values(|t: Toast| t@)
}

/// Whether a message is still shown.
pub open spec fn fresh(t: ToastModel, now: u64) -> bool {
    now - t.since < TOAST_NANOS
}

/// New messages, appearing now.
pub open spec fn appearing(texts: Seq<Seq<char>>, now: u64) -> Seq<ToastModel> {
    texts.map_values(|t: Seq<char>| ToastModel { since: now, text: t })
}

/// The messages on the screen after an update.
pub open spec fn shown_after(before: Seq<ToastModel>, texts: Seq<Seq<char>>, now: u64) -> Seq<
    ToastModel,
> {
    (before + appearing(texts, now)).filter(|t: ToastModel| fresh(t, now))
}

/// The messages on the screen.
#[derive(Debug)]
pub struct Widget {
    pub toasts: Vec<Toast>,
}

proof fn lemma_filter_push(s: Seq<ToastModel>, t: ToastModel, now: u64)
    ensures
        s.push(t).filter(|t: ToastModel| fresh(t, now)) == if fresh(t, now) {
            s.filter(|t: ToastModel| fresh(t, now)).push(t)
        } else {
            s.filter(|t: ToastModel| fresh(t, now))
        },
{
    reveal(Seq::filter);
    assert(s.push(t).drop_last() =~= s);
}

impl Widget {
    /// An empty screen.
    pub fn new() -> (r: Self)
        ensures
            toast_models(r.toasts@) == Seq::<ToastModel>::empty(),
    {
        let r = Widget { toasts: Vec::new() };
        assert(toast_models(r.toasts@) =~= Seq::<ToastModel>::empty());
        r
    }

    /// Adds new messages below those on the screen, and takes away those whose time is over.
    /// `now` counts nanoseconds.
    pub fn update_toasts(&mut self, texts: Vec<String>, now: u64)
        ensures
            toast_models(final(self).toasts@) == shown_after(
                toast_models(old(self).toasts@),
                crate::text::texts(texts@),
                now,
            ),
    {
        let ghost all = toast_models(self.toasts@) + appearing(crate::text::texts(texts@), now);
        let ghost count = self.toasts@.len();
        let mut kept: Vec<Toast> = Vec::new();
        let mut i: usize = 0;
        proof {
            reveal(Seq::filter);
        }
        assert(toast_models(kept@) =~= all.take(0).filter(|t: ToastModel| fresh(t, now)));
        while i < self.toasts.len()
            invariant
                count == self.toasts@.len(),
                i <= count,
                all == toast_models(self.toasts@) + appearing(crate::text::texts(texts@), now),
                toast_models(kept@) == all.take(i as int).filter(|t: ToastModel| fresh(t, now)),
            decreases count - i,
        {
            let t = &self.toasts[i];
            assert(all[i as int] == t@);
            assert(all.take(i + 1) =~= all.take(i as int).push(t@));
            proof {
                lemma_filter_push(all.take(i as int), t@, now);
            }
            if now < t.since || now - t.since < TOAST_NANOS {
                let ghost before = toast_models(kept@);
                let ghost model = t@;
                kept.push(Toast { since: t.since, text: t.text.clone() });
                assert(toast_models(kept@) =~= before.push(model));
            }
            i = i + 1;
        }
        let mut j: usize = 0;
        while j < texts.len()
            invariant
                count == self.toasts@.len(),
                j <= texts@.len(),
                all == toast_models(self.toasts@) + appearing(crate::text::texts(texts@), now),
                toast_models(kept@) == all.take(count + j).filter(
                    |t: ToastModel| fresh(t, now),
                ),
            decreases texts@.len() - j,
        {
            let ghost model = ToastModel { since: now, text: texts@[j as int]@ };
            assert(all[count + j] == model);
            assert(all.take(count + j + 1) =~= all.take(count + j).push(model));
            proof {
                lemma_filter_push(all.take(count + j), model, now);
            }
            let ghost before = toast_models(kept@);
            kept.push(Toast { since: now, text: texts[j].clone() });
            assert(toast_models(kept@) =~= before.push(model));
            j = j + 1;
        }
        assert(all.take(all.len() as int) =~= all);
        self.toasts = kept;
    }
}

/// Whole minutes and seconds, never below zero.
pub open spec fn elapsed_text(secs: int) -> Seq<char> {
    let s = if secs < 0 {
        0
    } else {
        secs
    };
    crate::text::decimal((s / 60) as nat) + ":"@ + crate::text::two_digits((s % 60) as nat)
}

/// The timer's text: nothing where there is no timer.
pub open spec fn timer_text(elapsed_secs: Option<i32>) -> Seq<char> {
    match elapsed_secs {
        Some(secs) => elapsed_text(secs as int),
        None => seq![],
    }
}

/// The timer's text for the whole seconds since it started: nothing where there is no timer.
pub fn timer_title(elapsed_secs: Option<i32>) -> (r: String)
    ensures
        r@ == timer_text(elapsed_secs),
{
    match elapsed_secs {
        Some(secs) => get_elapsed_time(secs),
        None => String::new(),
    }
}

/// The text for a number of whole seconds.
pub fn get_elapsed_time(elapsed_secs: i32) -> (r: String)
    ensures
        r@ == elapsed_text(elapsed_secs as int),
{
    let secs: u64 = if elapsed_secs < 0 {
        0
    } else {
        elapsed_secs as u64
    };
    let mut out = String::new();
    push_decimal(&mut out, secs / 60);
    out.append(":");
    push_two_digits(&mut out, secs % 60);
    assert(out@ =~= elapsed_text(elapsed_secs as int));
    out
}

/// Every new message appears.
pub proof fn lemma_new_toasts_appear(texts: Seq<Seq<char>>, now: u64)
    ensures
        appearing(texts, now).filter(|t: ToastModel| fresh(t, now)) == appearing(texts, now),
    decreases texts.len(),
{
    reveal(Seq::filter);
    let all = appearing(texts, now);
    if texts.len() > 0 {
        lemma_new_toasts_appear(texts.drop_last(), now);
        assert(all.drop_last() =~= appearing(texts.drop_last(), now));
        assert(all =~= all.drop_last().push(all.last()));
    } else {
        assert(all.filter(|t: ToastModel| fresh(t, now)) =~= all);
    }
}

/// A message that is gone stays gone, and one that is shown later was shown before.
pub proof fn lemma_toasts_only_fade(t: ToastModel, now: u64, later: u64)
    requires
        now <= later,
        fresh(t, later),
    ensures
        fresh(t, now),
{
}

/// What a request changes: its message comes after those that wait, its lines take the place of
/// those before, and its timer too, where it speaks of one. What it does not speak of stays.
pub proof fn lemma_request(m: ChannelModel, req: UiRequest, timer: Option<NetworkTime>)
    ensures
        ({
            let after = after_request(m, req, timer);
            &&& req.toast is None ==> after.toasts == m.toasts
            &&& req.toast is Some ==> after.toasts == m.toasts.push(req.toast.unwrap()@)
            &&& req.timer is None ==> after.timer == m.timer
            &&& req.timer is Some ==> after.timer == timer
            &&& req.info is None ==> after.info == m.info
            &&& req.info is Some ==> after.info.len() == req.info.unwrap()@.len() && forall|i: int|
                0 <= i < after.info.len() ==> #[trigger] after.info[i] == req.info.unwrap()@[i]@
        }),
{
}

/// What is on the screen after an update: the messages that were there for less than four seconds,
/// and the new ones, which appear then. Nothing else is.
pub proof fn lemma_what_is_shown(
    before: Seq<ToastModel>,
    texts: Seq<Seq<char>>,
    now: u64,
    t: ToastModel,
)
    ensures
        shown_after(before, texts, now).contains(t) <==> (before.contains(t) && now - t.since
            < 4_000_000_000) || (t.since == now && texts.contains(t.text)),
{
    let new = appearing(texts, now);
    let all = before + new;
    lemma_filtered(all, t, now);
    if all.contains(t) {
        let i = choose|i: int| 0 <= i < all.len() && all[i] == t;
        if i < before.len() {
            assert(before[i] == t);
        } else {
            assert(new[i - before.len()] == t);
            assert(texts[i - before.len()] == t.text);
        }
    }
    if before.contains(t) {
        let i = choose|i: int| 0 <= i < before.len() && before[i] == t;
        assert(all[i] == t);
    }
    if t.since == now && texts.contains(t.text) {
        let i = choose|i: int| 0 <= i < texts.len() && texts[i] == t.text;
        assert(all[before.len() + i] == t);
    }
}

proof fn lemma_filtered(s: Seq<ToastModel>, t: ToastModel, now: u64)
    ensures
        s.filter(|t: ToastModel| fresh(t, now)).contains(t) <==> s.contains(t) && fresh(t, now),
    decreases s.len(),
{
    let shown = s.filter(|t: ToastModel| fresh(t, now));
    if s.len() == 0 {
        reveal(Seq::filter);
    } else {
        let rest = s.drop_last();
        let last = s.last();
        let before = rest.filter(|t: ToastModel| fresh(t, now));
        lemma_filtered(rest, t, now);
        assert(rest.push(last) =~= s);
        lemma_filter_push(rest, last, now);
        if s.contains(t) {
            let i = choose|i: int| 0 <= i < s.len() && s[i] == t;
            if i < rest.len() {
                assert(rest[i] == t);
            }
        }
        if rest.contains(t) {
            let i = choose|i: int| 0 <= i < rest.len() && rest[i] == t;
            assert(s[i] == t);
        }
        assert(s[s.len() - 1] == last);
        if before.contains(t) {
            let i = choose|i: int| 0 <= i < before.len() && before[i] == t;
            assert(shown[i] == t);
        }
        if fresh(last, now) {
            assert(shown[before.len() as int] == last);
        }
        if shown.contains(t) && t != last {
            let i = choose|i: int| 0 <= i < shown.len() && shown[i] == t;
            assert(before[i] == t);
        }
    }
}

/// Messages stay in the order in which they appeared, new ones last.
pub proof fn lemma_shown_in_order(
    before: Seq<ToastModel>,
    t: ToastModel,
    texts: Seq<Seq<char>>,
    text: Seq<char>,
    now: u64,
)
    ensures
        shown_after(Seq::empty(), Seq::empty(), now).len() == 0,
        shown_after(before.push(t), Seq::empty(), now) == if now - t.since < 4_000_000_000 {
            shown_after(before, Seq::empty(), now).push(t)
        } else {
            shown_after(before, Seq::empty(), now)
        },
        shown_after(before, texts.push(text), now) == shown_after(before, texts, now).push(
            ToastModel { since: now, text },
        ),
{
    let none = Seq::<Seq<char>>::empty();
    let nothing = Seq::<ToastModel>::empty();
    reveal(Seq::filter);
    assert(nothing + appearing(none, now) =~= nothing);
    assert(before + appearing(none, now) =~= before);
    assert(before.push(t) + appearing(none, now) =~= before.push(t));
    lemma_filter_push(before, t, now);
    let new = ToastModel { since: now, text };
    assert(before + appearing(texts.push(text), now) =~= (before + appearing(texts, now)).push(
        new,
    ));
    lemma_filter_push(before + appearing(texts, now), new, now);
}

/// The timer shows minutes, a colon and two digits of seconds that make up the seconds that passed;
/// before the start it shows none.
pub proof fn lemma_elapsed_text(secs: int)
    ensures
        ({
            let minutes = crate::text::decimal((if secs < 0 {
                0
            } else {
                secs / 60
            }) as nat);
            let rest = elapsed_text(secs).skip(minutes.len() + 1int);
            &&& elapsed_text(secs) == minutes.push(':') + rest
            &&& rest.len() == 2
            &&& secs >= 0 ==> crate::text::number_of(minutes, 10) * 60 + crate::text::number_of(
                rest,
                10,
            ) == secs
            &&& secs >= 0 ==> 0 <= crate::text::number_of(rest, 10) < 60
            &&& secs < 0 ==> elapsed_text(secs) == elapsed_text(0)
        }),
{
    let s = if secs < 0 {
        0
    } else {
        secs
    };
    let minutes = crate::text::decimal((s / 60) as nat);
    let two = crate::text::two_digits((s % 60) as nat);
    crate::text::lemma_decimal((s / 60) as nat);
    crate::text::lemma_two_digits((s % 60) as nat);
    reveal_strlit(":");
    assert(elapsed_text(secs).skip(minutes.len() + 1int) =~= two);
    assert(elapsed_text(secs) =~= minutes.push(':') + two);
}

/// Messages are handed out in the order in which they came, each once; the timer and the lines stay.
pub proof fn lemma_messages_are_handed_out_once(m: ChannelModel, toast: Seq<char>)
    ensures
        handed_out(with_toast(m, toast)).1 == handed_out(m).1.push(toast),
        handed_out(handed_out(m).0).1.len() == 0,
        handed_out(with_toast(handed_out(m).0, toast)).1 == seq![toast],
        handed_out(m).0.timer == m.timer && handed_out(m).0.info == m.info,
        with_toast(m, toast).timer == m.timer && with_toast(m, toast).info == m.info,
{
    assert(Seq::<Seq<char>>::empty().push(toast) =~= seq![toast]);
}

/// Without a timer there is no text, and with one it is what passed since its start.
pub proof fn lemma_timer_text(elapsed_secs: Option<i32>)
    ensures
        elapsed_secs is None ==> timer_text(elapsed_secs).len() == 0,
        elapsed_secs matches Some(secs) ==> timer_text(elapsed_secs) == elapsed_text(secs as int),
{
}

} // verus!
