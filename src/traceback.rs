use vstd::prelude::*;

use std::collections::HashSet;

verus! {

/// The bytes of an ASCII text.
pub open spec fn ascii(s: Seq<char>) -> Seq<u8> {
    s.map_values(|c: char| c as u8)
}

pub open spec fn all_ascii(s: Seq<char>) -> bool {
    forall|i: int| 0 <= i < s.len() ==> (s[i] as u32) < 128
}

/// Appends the bytes of an ASCII text.
fn push_ascii(out: &mut Vec<u8>, s: &str)
    requires
        all_ascii(s@),
    ensures
        final(out)@ == old(out)@ + ascii(s@),
{
    let n = s.unicode_len();
    let mut i: usize = 0;
    let ghost start = out@;
    while i < n
        invariant
            n == s@.len(),
            i <= n,
            all_ascii(s@),
            out@ =~= start + ascii(s@.subrange(0, i as int)),
        decreases n - i,
    {
        let c = s.get_char(i);
        assert((c as u32) < 128);
        out.push(c as u8);
        assert(s@.subrange(0, i + 1) =~= s@.subrange(0, i as int).push(c));
        i = i + 1;
    }
    assert(s@.subrange(0, n as int) =~= s@);
}

fn push_bytes(out: &mut Vec<u8>, b: &Vec<u8>)
    ensures
        final(out)@ == old(out)@ + b@,
{
    let mut i: usize = 0;
    let ghost start = out@;
    while i < b.len()
        invariant
            i <= b@.len(),
            out@ =~= start + b@.subrange(0, i as int),
        decreases b@.len() - i,
    {
        out.push(b[i]);
        i = i + 1;
    }
    assert(b@.subrange(0, b@.len() as int) =~= b@);
}

pub open spec fn hex_digit(d: u8) -> u8 {
    if d < 10 { (48 + d) as u8 } else { (87 + d) as u8 }
}

/// A byte as std's ASCII escaping writes it: the escapes `\t`, `\r`, `\n`,
/// `\\`, `\'` and `\"`, printable bytes as they are, others as `\xNN`.
pub open spec fn escape_byte(c: u8) -> Seq<u8> {
    if c == 9 {
        seq![92u8, 116u8]
    } else if c == 13 {
        seq![92u8, 114u8]
    } else if c == 10 {
        seq![92u8, 110u8]
    } else if c == 92 || c == 39 || c == 34 {
        seq![92u8, c]
    } else if 0x20 <= c <= 0x7e {
        seq![c]
    } else {
        seq![92u8, 120u8, hex_digit(c / 16), hex_digit(c % 16)]
    }
}

/// Bytes escaped as std's `escape_ascii` does.
pub open spec fn escaped(b: Seq<u8>) -> Seq<u8>
    decreases b.len(),
{
    if b.len() == 0 {
        seq![]
    } else {
        escaped(b.drop_last()) + escape_byte(b.last())
    }
}

fn push_escaped(out: &mut Vec<u8>, b: &Vec<u8>)
    ensures
        final(out)@ == old(out)@ + escaped(b@),
{
    let mut i: usize = 0;
    let ghost start = out@;
    while i < b.len()
        invariant
            i <= b@.len(),
            out@ =~= start + escaped(b@.subrange(0, i as int)),
        decreases b@.len() - i,
    {
        let c = b[i];
        let ghost before = out@;
        if c == 9 {
            out.push(92);
            out.push(116);
        } else if c == 13 {
            out.push(92);
            out.push(114);
        } else if c == 10 {
            out.push(92);
            out.push(110);
        } else if c == 92 || c == 39 || c == 34 {
            out.push(92);
            out.push(c);
        } else if 0x20 <= c && c <= 0x7e {
            out.push(c);
        } else {
            out.push(92);
            out.push(120);
            let h = c / 16;
            let l = c % 16;
            out.push(if h < 10 { 48 + h } else { 87 + h });
            out.push(if l < 10 { 48 + l } else { 87 + l });
        }
        assert(out@ =~= before + escape_byte(c));
        assert(b@.subrange(0, i + 1).drop_last() =~= b@.subrange(0, i as int));
        i = i + 1;
    }
    assert(b@.subrange(0, b@.len() as int) =~= b@);
}

/// At most 30 bytes, with "..." after a text that reached 30.
pub open spec fn truncated(b: Seq<u8>) -> Seq<u8> {
    if b.len() >= 30 {
        b.subrange(0, 30) + ascii("..."@)
    } else {
        b
    }
}

fn truncate(b: &Vec<u8>) -> (r: Vec<u8>)
    ensures
        r@ == truncated(b@),
{
    let mut r: Vec<u8> = Vec::new();
    let mut i: usize = 0;
    let n: usize = if b.len() >= 30 { 30 } else { b.len() };
    while i < n
        invariant
            n <= b@.len(),
            i <= n,
            r@ =~= b@.subrange(0, i as int),
        decreases n - i,
    {
        r.push(b[i]);
        i = i + 1;
    }
    if b.len() >= 30 {
        proof {
            reveal_strlit("...");
        }
        push_ascii(&mut r, "...");
    } else {
        assert(b@.subrange(0, n as int) =~= b@);
    }
    r
}

/// An argument of a frame, as the interpreter's introspection shows it.
pub enum TraceArg {
    Nil,
    /// A host object: its text if the host could render it, whether it is a
    /// list, and its typepath if it has one.
    Object { text: Option<Vec<u8>>, is_list: bool, typepath: Option<Vec<u8>> },
    Bytes(Vec<u8>),
    /// A number, as the interpreter renders it.
    Number(Vec<u8>),
    Function { name: Option<Vec<u8>>, address: Vec<u8> },
    Other { address: Vec<u8>, kind: Vec<u8> },
}

/// One frame of a coroutine's stack, innermost first.
pub struct TraceFrame {
    /// Whether the frame runs native code.
    pub native: bool,
    pub source: Option<Vec<u8>>,
    pub name: Option<Vec<u8>>,
    /// The identity of the frame's function.
    pub function: u64,
    /// The function's address, as text.
    pub address: Vec<u8>,
    pub args: Vec<TraceArg>,
}

/// How an argument reads in a trace.
pub open spec fn arg_text(a: TraceArg) -> Seq<u8> {
    match a {
        TraceArg::Nil => ascii("null"@),
        TraceArg::Object { text, is_list, typepath } => truncated(
            match text {
                Some(t) => t@,
                None => ascii("???"@),
            },
        ) + if is_list {
            ascii(" (/list)"@)
        } else {
            match typepath {
                Some(p) => ascii(" ("@) + p@ + ascii(")"@),
                None => seq![],
            }
        },
        TraceArg::Bytes(b) => ascii("\""@) + escaped(truncated(b@)) + ascii("\""@),
        TraceArg::Number(t) => t@,
        TraceArg::Function { name, address } => match name {
            Some(n) => ascii("function "@) + n@ + ascii(" ("@) + address@ + ascii(")"@),
            None => ascii("anonymous function ("@) + address@ + ascii(")"@),
        },
        TraceArg::Other { address, kind } => address@ + ascii(" ("@) + kind@ + ascii(")"@),
    }
}

fn lit(out: &mut Vec<u8>, s: &str)
    requires
        all_ascii(s@),
    ensures
        final(out)@ == old(out)@ + ascii(s@),
{
    push_ascii(out, s);
}

/// Appends how an argument reads in a trace.
pub fn push_arg(out: &mut Vec<u8>, a: &TraceArg)
    ensures
        final(out)@ == old(out)@ + arg_text(*a),
{
    proof {
        reveal_strlit("null");
        reveal_strlit("???");
        reveal_strlit(" (/list)");
        reveal_strlit(" (");
        reveal_strlit(")");
        reveal_strlit("\"");
        reveal_strlit("function ");
        reveal_strlit("anonymous function (");
    }
    let ghost start = out@;
    match a {
        TraceArg::Nil => lit(out, "null"),
        TraceArg::Object { text, is_list, typepath } => {
            let t = match text {
                Some(t) => truncate(t),
                None => {
                    let mut q: Vec<u8> = Vec::new();
                    lit(&mut q, "???");
                    assert(q@ =~= ascii("???"@));
                    truncate(&q)
                },
            };
            push_bytes(out, &t);
            if *is_list {
                lit(out, " (/list)");
            } else {
                match typepath {
                    Some(p) => {
                        lit(out, " (");
                        push_bytes(out, p);
                        lit(out, ")");
                    },
                    None => {},
                }
            }
            assert(out@ =~= start + arg_text(*a));
        },
        TraceArg::Bytes(b) => {
            lit(out, "\"");
            let t = truncate(b);
            push_escaped(out, &t);
            lit(out, "\"");
            assert(out@ =~= start + arg_text(*a));
        },
        TraceArg::Number(t) => push_bytes(out, t),
        TraceArg::Function { name, address } => {
            match name {
                Some(n) => {
                    lit(out, "function ");
                    push_bytes(out, n);
                    lit(out, " (");
                    push_bytes(out, address);
                    lit(out, ")");
                },
                None => {
                    lit(out, "anonymous function (");
                    push_bytes(out, address);
                    lit(out, ")");
                },
            }
            assert(out@ =~= start + arg_text(*a));
        },
        TraceArg::Other { address, kind } => {
            push_bytes(out, address);
            lit(out, " (");
            push_bytes(out, kind);
            lit(out, ")");
            assert(out@ =~= start + arg_text(*a));
        },
    }
}

/// The source names of the bridge's own functions begin with these bytes ("__mlua").
pub open spec fn internal_prefix() -> Seq<u8> {
    seq![95u8, 95u8, 109u8, 108u8, 117u8, 97u8]
}

/// Frames of native code and of the bridge's own functions are left out of traces.
pub open spec fn skipped(f: TraceFrame) -> bool {
    f.native || match f.source {
        Some(s) => s@.len() >= 6 && s@.subrange(0, 6) == internal_prefix(),
        None => false,
    }
}

pub open spec fn spaced(b: Seq<u8>) -> Seq<u8> {
    b.map_values(|c: u8| if c == 95 { 32u8 } else { c })
}

/// The name a frame is listed under: a main chunk by its escaped source, a
/// named function by its name with underscores read as spaces, others by
/// their address.
pub open spec fn frame_label(f: TraceFrame, main: Set<u64>) -> Seq<u8> {
    if main.contains(f.function) {
        match f.source {
            Some(s) => ascii("main chunk \""@) + escaped(s@) + ascii("\""@),
            None => ascii("anonymous chunk"@),
        }
    } else {
        match f.name {
            None => ascii("anonymous function ("@) + f.address@ + ascii(")"@),
            Some(n) => spaced(n@),
        }
    }
}

/// Parts joined with a separator.
pub open spec fn join(parts: Seq<Seq<u8>>, sep: Seq<u8>) -> Seq<u8>
    decreases parts.len(),
{
    if parts.len() == 0 {
        seq![]
    } else if parts.len() == 1 {
        parts[0]
    } else {
        join(parts.drop_last(), sep) + sep + parts.last()
    }
}

pub open spec fn frame_text(f: TraceFrame, main: Set<u64>) -> Seq<u8> {
    frame_label(f, main) + ascii("("@) + join(f.args@.map_values(|a: TraceArg| arg_text(a)), ascii(", "@))
        + ascii(")"@)
}

/// The texts of the frames among the first `n` that a trace lists.
pub open spec fn kept_texts(frames: Seq<TraceFrame>, main: Set<u64>, n: int) -> Seq<Seq<u8>>
    decreases n,
{
    if n <= 0 {
        seq![]
    } else if skipped(frames[n - 1]) {
        kept_texts(frames, main, n - 1)
    } else {
        kept_texts(frames, main, n - 1).push(frame_text(frames[n - 1], main))
    }
}

proof fn lemma_join_push(parts: Seq<Seq<u8>>, p: Seq<u8>, sep: Seq<u8>)
    ensures
        join(parts.push(p), sep) == if parts.len() == 0 { p } else { join(parts, sep) + sep + p },
{
    assert(parts.push(p).drop_last() =~= parts);
}

fn push_label(out: &mut Vec<u8>, f: &TraceFrame, main: &HashSet<u64>)
    ensures
        final(out)@ == old(out)@ + frame_label(*f, main@),
{
    proof {
        reveal_strlit("main chunk \"");
        reveal_strlit("\"");
        reveal_strlit("anonymous chunk");
        reveal_strlit("anonymous function (");
        reveal_strlit(")");
    }
    let ghost start = out@;
    if main.contains(&f.function) {
        match &f.source {
            Some(s) => {
                lit(out, "main chunk \"");
                push_escaped(out, s);
                lit(out, "\"");
            },
            None => lit(out, "anonymous chunk"),
        }
    } else {
        match &f.name {
            None => {
                lit(out, "anonymous function (");
                push_bytes(out, &f.address);
                lit(out, ")");
            },
            Some(n) => {
                let mut i: usize = 0;
                while i < n.len()
                    invariant
                        i <= n@.len(),
                        out@ =~= start + spaced(n@.subrange(0, i as int)),
                    decreases n@.len() - i,
                {
                    let c = n[i];
                    out.push(if c == 95 { 32 } else { c });
                    i = i + 1;
                }
                assert(n@.subrange(0, n@.len() as int) =~= n@);
            },
        }
    }
    assert(out@ =~= start + frame_label(*f, main@));
}

fn push_frame(out: &mut Vec<u8>, f: &TraceFrame, main: &HashSet<u64>)
    ensures
        final(out)@ == old(out)@ + frame_text(*f, main@),
{
    proof {
        reveal_strlit("(");
        reveal_strlit(", ");
        reveal_strlit(")");
    }
    let ghost start = out@;
    push_label(out, f, main);
    lit(out, "(");
    let ghost head = out@;
    let ghost texts = f.args@.map_values(|a: TraceArg| arg_text(a));
    let mut i: usize = 0;
    while i < f.args.len()
        invariant
            i <= f.args@.len(),
            texts == f.args@.map_values(|a: TraceArg| arg_text(a)),
            out@ =~= head + join(texts.subrange(0, i as int), ascii(", "@)),
        decreases f.args@.len() - i,
    {
        proof {
            reveal_strlit(", ");
        }
        if i > 0 {
            lit(out, ", ");
        }
        push_arg(out, &f.args[i]);
        proof {
            assert(texts.subrange(0, i + 1) =~= texts.subrange(0, i as int).push(texts[i as int]));
            lemma_join_push(texts.subrange(0, i as int), texts[i as int], ascii(", "@));
        }
        i = i + 1;
    }
    assert(texts.subrange(0, f.args@.len() as int) =~= texts);
    lit(out, ")");
    assert(out@ =~= start + frame_text(*f, main@));
}

/// Whether a frame is left out of traces.
pub fn is_skipped(f: &TraceFrame) -> (r: bool)
    ensures
        r == skipped(*f),
{
    if f.native {
        return true;
    }
    match &f.source {
        Some(s) => {
            if s.len() >= 6 && s[0] == 95 && s[1] == 95 && s[2] == 109 && s[3] == 108 && s[4] == 117
                && s[5] == 97 {
                assert(s@.subrange(0, 6) =~= internal_prefix());
                true
            } else {
                assert(s@.len() >= 6 ==> s@.subrange(0, 6)[0] == s@[0] && s@.subrange(0, 6)[1] == s@[1]
                    && s@.subrange(0, 6)[2] == s@[2] && s@.subrange(0, 6)[3] == s@[3]
                    && s@.subrange(0, 6)[4] == s@[4] && s@.subrange(0, 6)[5] == s@[5]);
                false
            }
        },
        None => false,
    }
}

/// A coroutine's trace in the host's own format: one line per frame,
/// innermost first, leaving out native frames and the bridge's own.
pub fn dm_traceback(frames: &Vec<TraceFrame>, main_chunks: &HashSet<u64>) -> (r: Vec<u8>)
    ensures
        r@ == join(kept_texts(frames@, main_chunks@, frames@.len() as int), ascii("\n"@)),
{
    proof {
        reveal_strlit("\n");
    }
    let mut out: Vec<u8> = Vec::new();
    let mut add_newline = false;
    let mut i: usize = 0;
    while i < frames.len()
        invariant
            i <= frames@.len(),
            out@ == join(kept_texts(frames@, main_chunks@, i as int), ascii("\n"@)),
            add_newline == (kept_texts(frames@, main_chunks@, i as int).len() > 0),
        decreases frames@.len() - i,
    {
        let f = &frames[i];
        if !is_skipped(f) {
            proof {
                reveal_strlit("\n");
            }
            if add_newline {
                lit(&mut out, "\n");
            }
            push_frame(&mut out, f, main_chunks);
            proof {
                lemma_join_push(kept_texts(frames@, main_chunks@, i as int), frame_text(*f, main_chunks@), ascii("\n"@));
            }
            add_newline = true;
        }
        i = i + 1;
    }
    out
}

} // verus!
