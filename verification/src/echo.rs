use vstd::prelude::*;
use crate::cstr::{c_string, lemma_nul_run, nul_run};
use crate::startup::{Image, InitArgsMut, Span};

verus! {

/// The byte that separates the arguments in the output.
pub const SPACE: u8 = 0x20;

/// The byte that ends the output.
pub const NEWLINE: u8 = 0x0a;

/// The strings of `s`, each followed by a space.
pub open spec fn spaced(s: Seq<Seq<u8>>) -> Seq<u8>
    decreases s.len(),
{
    if s.len() == 0 {
        Seq::empty()
    } else {
        spaced(s.drop_last()) + s.last() + seq![SPACE]
    }
}

/// The strings of `s` separated by single spaces.
pub open spec fn join(s: Seq<Seq<u8>>) -> Seq<u8>
    decreases s.len(),
{
    if s.len() == 0 {
        Seq::empty()
    } else if s.len() == 1 {
        s[0]
    } else {
        join(s.drop_last()) + seq![SPACE] + s.last()
    }
}

/// What `echo` prints for the operands `s`: the operands separated by single
/// spaces, followed by a newline.
pub open spec fn echo_line(s: Seq<Seq<u8>>) -> Seq<u8> {
    join(s) + seq![NEWLINE]
}

pub proof fn lemma_spaced_join(s: Seq<Seq<u8>>)
    requires
        s.len() > 0,
    ensures
        spaced(s) == join(s) + seq![SPACE],
    decreases s.len(),
{
    if s.len() == 1 {
        assert(s.drop_last() =~= Seq::<Seq<u8>>::empty());
        assert(spaced(s) =~= join(s) + seq![SPACE]);
    } else {
        lemma_spaced_join(s.drop_last());
        assert(spaced(s) == spaced(s.drop_last()) + s.last() + seq![SPACE]);
        assert(join(s) == join(s.drop_last()) + seq![SPACE] + s.last());
        assert(spaced(s) =~= join(s) + seq![SPACE]);
    }
}

/// The bytes of `mem` from index `from` up to index `to`.
fn copy_range(mem: &Vec<u8>, from: usize, to: usize) -> (res: Vec<u8>)
    requires
        from <= to <= mem@.len(),
    ensures
        res@ == mem@.subrange(from as int, to as int),
{
    let mut out: Vec<u8> = Vec::new();
    let mut k = from;
    while k < to
        invariant
            from <= k <= to,
            to <= mem@.len(),
            out@ == mem@.subrange(from as int, k as int),
        decreases to - k,
    {
        out.push(mem[k]);
        k = k + 1;
        assert(out@ =~= mem@.subrange(from as int, k as int));
    }
    out
}

/// The `echo` utility on the initial stack: it turns
/// the NUL after each operand (every argument but the first) into a space and
/// the last of them into a newline, in the argument area itself, and returns
/// the bytes from the first operand to the end of the argument strings; with
/// no operand, it returns a single newline.
pub fn echo(init: &mut InitArgsMut) -> (res: Vec<u8>)
    requires
        old(init).0.wf(),
        old(init).0.packed(),
    ensures
        res@ == echo_line(old(init).0.operands()),
        final(init).0.words@ == old(init).0.words@,
        final(init).0.sp == old(init).0.sp,
        final(init).0.base == old(init).0.base,
        old(init).0.argc() < 2 ==> final(init).0.strings@ == old(init).0.strings@,
        old(init).0.argc() >= 2 ==> final(init).0.strings@ == old(init).0.strings@.subrange(0, old(init).0.argx()[1] - old(init).0.base)
            + res@ + old(init).0.strings@.subrange(
            old(init).0.argx()[old(init).0.argc()] - old(init).0.base,
            old(init).0.strings@.len() as int,
        ),
{
    let ghost img: Image = init.0;
    let ghost s0 = init.0.strings@;
    let ghost args = img.arg_strings();
    proof {
        assert forall|i: int| 0 <= i < img.argc() implies #[trigger] img.argx()[i] <= img.argx()[i + 1] by {
            assert(img.arg_fits(i));
        }
    }
    let spans = init.args();
    let argc = spans.len();
    let base = init.0.base;
    if argc < 2 {
        assert(img.operands() =~= Seq::<Seq<u8>>::empty());
        let mut out: Vec<u8> = Vec::new();
        out.push(NEWLINE);
        assert(out@ =~= echo_line(img.operands()));
        return out;
    }
    let ghost off1: int = img.argx()[1] - base;
    proof {
        assert(img.arg_fits(1));
        assert(img.arg_fits(0));
        assert(img.argx()[1] <= img.argx()[2]);
    }
    let mut i: usize = 1;
    while i < argc
        invariant
            img == old(init).0,
            s0 == img.strings@,
            args == img.arg_strings(),
            img.wf(),
            img.packed(),
            argc == img.argc(),
            spans@.len() == argc,
            forall|j: int| 0 <= j < argc ==> #[trigger] spans@[j] == img.span(j),
            base == img.base,
            init.0.words@ == img.words@,
            init.0.sp == img.sp,
            init.0.base == img.base,
            init.0.strings@.len() == s0.len(),
            2 <= argc,
            1 <= i <= argc,
            off1 == img.argx()[1] - base,
            img.base <= img.argx()[1],
            off1 <= img.argx()[i as int] - base <= s0.len(),
            init.0.strings@.subrange(off1, img.argx()[i as int] - base) == spaced(args.subrange(1, i as int)),
            forall|k: int| 0 <= k < s0.len() && !(off1 <= k < img.argx()[i as int] - base)
                ==> #[trigger] init.0.strings@[k] == s0[k],
        decreases argc - i,
    {
        let ghost offi: int = img.argx()[i as int] - base;
        let ghost run: int = nul_run(s0, offi) as int;
        let ghost before = init.0.strings@;
        proof {
            assert(img.arg_fits(i as int));
            lemma_nul_run(s0, offi);
        }
        let sp: Span = spans[i];
        assert(sp == img.span(i as int));
        if sp.len > 0 {
            let k = sp.start - base + (sp.len - 1);
            init.0.strings.set(k, SPACE);
        }
        i = i + 1;
        proof {
            let after = init.0.strings@;
            let offn: int = img.argx()[i as int] - base;
            assert(offn == offi + run + 1);
            assert(args[i - 1] == c_string(s0, offi));
            assert(after.subrange(offi, offi + run) =~= s0.subrange(offi, offi + run));
            assert(args.subrange(1, i as int).drop_last() =~= args.subrange(1, i - 1));
            assert(after.subrange(off1, offn) =~= after.subrange(off1, offi) + after.subrange(offi, offi + run) + seq![SPACE]);
            assert(after.subrange(off1, offi) =~= before.subrange(off1, offi));
            assert(spaced(args.subrange(1, i as int)) == spaced(args.subrange(1, i - 1)) + args[i - 1] + seq![SPACE]);
        }
    }
    let buf = init.arg_buf(1);
    let ghost offe: int = img.argx()[argc as int] - base;
    let ghost mid = init.0.strings@;
    proof {
        assert(args.subrange(1, argc as int) =~= img.operands());
        lemma_spaced_join(img.operands());
        assert(buf.start == img.argx()[1]);
        assert(mid.subrange(off1, offe) == join(img.operands()) + seq![SPACE]);
    }
    let last = buf.start - base + (buf.len - 1);
    init.0.strings.set(last, NEWLINE);
    proof {
        assert(init.0.strings@.subrange(off1, offe) =~= mid.subrange(off1, offe).update(offe - off1 - 1, NEWLINE));
        assert(init.0.strings@.subrange(off1, offe) =~= echo_line(img.operands()));
    }
    let out = copy_range(&init.0.strings, buf.start - base, buf.start - base + buf.len);
    proof {
        let fin = init.0.strings@;
        assert(fin =~= s0.subrange(0, off1) + out@ + s0.subrange(offe, s0.len() as int));
    }
    out
}

/// The operands of `s`, each followed by a space.
proof fn lemma_spaced_pieces(s: Seq<Seq<u8>>)
    ensures
        spaced(s) == Seq::new(s.len(), |i: int| s[i].push(SPACE)).flatten_alt(),
    decreases s.len(),
{
    let pieces = Seq::new(s.len(), |i: int| s[i].push(SPACE));
    if s.len() > 0 {
        lemma_spaced_pieces(s.drop_last());
        assert(pieces.drop_last() =~= Seq::new(s.drop_last().len(), |i: int| s.drop_last()[i].push(SPACE)));
        assert(spaced(s) =~= pieces.flatten_alt());
    } else {
        assert(pieces.flatten_alt() =~= Seq::<u8>::empty());
    }
}

/// What `echo` prints, for any number of operands: each operand followed by
/// one separator byte, a space after every operand but the last and a
/// newline after the last; a lone newline when there is no operand. So the
/// output always ends with a newline.
pub proof fn lemma_echo_line_shape(s: Seq<Seq<u8>>)
    ensures
        s.len() == 0 ==> echo_line(s) == seq![NEWLINE],
        s.len() > 0 ==> echo_line(s) == Seq::new(
            s.len(),
            |i: int| s[i].push(if i == s.len() - 1 { NEWLINE } else { SPACE }),
        ).flatten(),
        echo_line(s).len() > 0 && echo_line(s).last() == NEWLINE,
{
    if s.len() == 0 {
        assert(echo_line(s) =~= seq![NEWLINE]);
    } else {
        let n = s.len();
        let pieces = Seq::new(n, |i: int| s[i].push(if i == n - 1 { NEWLINE } else { SPACE }));
        let dl = s.drop_last();
        lemma_spaced_pieces(dl);
        assert(pieces.drop_last() =~= Seq::new(dl.len(), |i: int| dl[i].push(SPACE)));
        assert(pieces.last() == s.last().push(NEWLINE));
        pieces.lemma_flatten_and_flatten_alt_are_equivalent();
        assert(pieces.flatten_alt() == spaced(dl) + s.last().push(NEWLINE));
        if n == 1 {
            assert(dl =~= Seq::<Seq<u8>>::empty());
            assert(join(s) == s[0]);
        } else {
            lemma_spaced_join(dl);
            assert(join(s) == join(dl) + seq![SPACE] + s.last());
        }
        assert(echo_line(s) =~= spaced(dl) + s.last().push(NEWLINE));
    }
}

} // verus!
