//! Commands, as far as they are put together here.

use vstd::prelude::*;

use crate::binary64::writing::{fixed_text, law_fixed_text_is_near, ten_to};
use crate::binary64::{one, Binary64};
use crate::number::{all_digits, digits_value};

verus! {

/// A time as ffmpeg is told it: in seconds, with six decimals.
pub open spec fn time_text(t: Binary64) -> Seq<char> {
    fixed_text(t, 6)
}

pub(crate) fn time(t: Binary64) -> (r: String)
    ensures
        r@ == time_text(t),
{
    t.fixed(6)
}

/// An argument of a command: a text, or a path handed on as it is.
#[derive(Debug)]
pub enum Arg<'a, P> {
    Text(String),
    File(&'a P),
}

/// The contents of an [`Arg`].
pub enum ArgView<P> {
    Text(Seq<char>),
    File(P),
}

impl<'a, P> View for Arg<'a, P> {
    type V = ArgView<P>;

    open spec fn view(&self) -> ArgView<P> {
        match *self {
            Arg::Text(s) => ArgView::Text(s@),
            Arg::File(p) => ArgView::File(*p),
        }
    }
}

/// The contents of a list of arguments.
pub open spec fn arg_views<'a, P>(args: Seq<Arg<'a, P>>) -> Seq<ArgView<P>> {
    Seq::new(args.len(), |i: int| args[i]@)
}

/// Arguments that are all texts.
pub open spec fn words<P>(list: Seq<Seq<char>>) -> Seq<ArgView<P>> {
    Seq::new(list.len(), |i: int| ArgView::Text(list[i]))
}

/// A program to run and its arguments.
#[derive(Debug)]
pub struct FfmpegCommand<'a, P> {
    pub program: &'a P,
    pub args: Vec<Arg<'a, P>>,
}

/// The contents of an [`FfmpegCommand`].
#[verifier::ext_equal]
pub struct CommandView<P> {
    pub program: P,
    pub args: Seq<ArgView<P>>,
}

impl<'a, P> View for FfmpegCommand<'a, P> {
    type V = CommandView<P>;

    open spec fn view(&self) -> CommandView<P> {
        CommandView { program: *self.program, args: arg_views(self.args@) }
    }
}

impl<'a, P> FfmpegCommand<'a, P> {
    pub(crate) fn new(program: &'a P) -> (r: Self)
        ensures
            r@ == (CommandView { program: *program, args: Seq::<ArgView<P>>::empty() }),
    {
        let r = FfmpegCommand { program, args: Vec::new() };
        assert(r@.args =~= Seq::<ArgView<P>>::empty());
        r
    }

    pub(crate) fn text(&mut self, s: &str)
        ensures
            final(self)@ == (CommandView {
                program: old(self)@.program,
                args: old(self)@.args.push(ArgView::Text(s@)),
            }),
    {
        let ghost before = self.args@;
        self.args.push(Arg::Text(s.to_owned()));
        assert(arg_views(self.args@) =~= arg_views(before).push(ArgView::Text(s@)));
    }

    pub(crate) fn pair(&mut self, a: &str, b: &str)
        ensures
            final(self)@ == (CommandView {
                program: old(self)@.program,
                args: old(self)@.args.push(ArgView::Text(a@)).push(ArgView::Text(b@)),
            }),
    {
        self.text(a);
        self.text(b);
    }

    pub(crate) fn file(&mut self, p: &'a P)
        ensures
            final(self)@ == (CommandView {
                program: old(self)@.program,
                args: old(self)@.args.push(ArgView::File(*p)),
            }),
    {
        let ghost before = self.args@;
        self.args.push(Arg::File(p));
        assert(arg_views(self.args@) =~= arg_views(before).push(ArgView::File(*p)));
    }
}

// ── Laws ─────────────────────────────────────────────────────────────────

/// The arguments of a command stand in order, texts as texts and paths as they
/// are.
pub proof fn law_arguments_in_order<'a, P>(args: Seq<Arg<'a, P>>, list: Seq<Seq<char>>, i: int)
    ensures
        arg_views(args).len() == args.len(),
        0 <= i < args.len() ==> arg_views(args)[i] == match args[i] {
            Arg::Text(s) => ArgView::Text(s@),
            Arg::File(p) => ArgView::File(*p),
        },
        words::<P>(list).len() == list.len(),
        0 <= i < list.len() ==> words::<P>(list)[i] == ArgView::<P>::Text(list[i]),
{
}

/// A time is written to the millionth of a second: digits, a dot and six more
/// digits, which stand for it to within half a millionth.
pub proof fn law_times_are_written_to_the_millionth(t: Binary64)
    requires
        t.is_finite(),
        !t.is_negative(),
    ensures
        ({
            let text = time_text(t);
            let dot = text.len() - 7;
            let (front, back) = (text.take(dot), text.skip(dot + 1));
            let n = (digits_value(front) * 1_000_000 + digits_value(back)) * one();
            let exact = t.size() * 1_000_000;
            &&& 0 < dot
            &&& text[dot] == '.'
            &&& all_digits(front) && all_digits(back)
            &&& 2 * (n - exact) <= one() && 2 * (exact - n) <= one()
        }),
{
    law_fixed_text_is_near(t, 6);
    assert(ten_to(6) == 1_000_000) by {
        reveal_with_fuel(ten_to, 7);
    }
    let text = time_text(t);
    let dot = text.len() - 7;
    assert(text.subrange(0, dot) =~= text.take(dot));
}

/// Every time is written with six decimals, whatever its sign or size.
pub proof fn law_times_have_six_decimals(t: Binary64)
    ensures
        time_text(t) == fixed_text(t, 6),
{
}

} // verus!
