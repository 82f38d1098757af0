//! Human-readable rendering of chunks and containers.

use vstd::prelude::*;
use vstd::string::StringExecFns;
use vstd::utf8::{decode_utf8, valid_utf8};

use crate::chunk::{Chunk, ChunkModel};
use crate::chunk_type::tag_text;
use crate::crc32::crc32_of;
use crate::png::Png;

verus! {

/// The character of one decimal digit.
pub open spec fn dec_digit(d: int) -> char {
    ((48 + d) as u8) as char
}

/// The decimal writing of a number, most significant digit first.
pub open spec fn spec_dec(n: int) -> Seq<char>
    decreases n,
{
    if n < 10 {
        seq![dec_digit(n)]
    } else {
        spec_dec(n / 10).push(dec_digit(n % 10))
    }
}

/// One line block per chunk: its length, type, payload as text where the
/// payload is valid UTF-8 (else left empty), and checksum.
pub open spec fn spec_render_chunk(m: ChunkModel) -> Seq<char> {
    "Chunk {\n  Length: "@ + spec_dec(m.data.len() as int) + "\n  Type: "@ + tag_text(m.tag)
        + "\n  Data: "@ + (if valid_utf8(m.data) {
        decode_utf8(m.data)
    } else {
        Seq::empty()
    }) + "\n  Crc: "@ + spec_dec(crc32_of(m.tag + m.data) as int) + "\n}\n"@
}

/// The rendering of every chunk, in order.
pub open spec fn spec_render_png(s: Seq<ChunkModel>) -> Seq<char>
    decreases s.len(),
{
    if s.len() == 0 {
        Seq::empty()
    } else {
        spec_render_chunk(s[0]) + spec_render_png(s.drop_first())
    }
}

/// Appends one decimal digit character.
fn push_dec_digit(out: &mut String, d: u32)
    requires
        d < 10,
    ensures
        final(out)@ == old(out)@ + seq![dec_digit(d as int)],
{
    match d {
        0 => {
            proof {
                reveal_strlit("0");
            }
            out.append("0");
        },
        1 => {
            proof {
                reveal_strlit("1");
            }
            out.append("1");
        },
        2 => {
            proof {
                reveal_strlit("2");
            }
            out.append("2");
        },
        3 => {
            proof {
                reveal_strlit("3");
            }
            out.append("3");
        },
        4 => {
            proof {
                reveal_strlit("4");
            }
            out.append("4");
        },
        5 => {
            proof {
                reveal_strlit("5");
            }
            out.append("5");
        },
        6 => {
            proof {
                reveal_strlit("6");
            }
            out.append("6");
        },
        7 => {
            proof {
                reveal_strlit("7");
            }
            out.append("7");
        },
        8 => {
            proof {
                reveal_strlit("8");
            }
            out.append("8");
        },
        _ => {
            proof {
                reveal_strlit("9");
            }
            out.append("9");
        },
    }
    proof {
        assert(out@ =~= old(out)@ + seq![dec_digit(d as int)]);
    }
}

/// Appends a number's decimal writing.
fn push_dec(out: &mut String, n: u32)
    ensures
        final(out)@ == old(out)@ + spec_dec(n as int),
    decreases n,
{
    if n < 10 {
        push_dec_digit(out, n);
    } else {
        push_dec(out, n / 10);
        push_dec_digit(out, n % 10);
        proof {
            assert(old(out)@ + spec_dec(n as int / 10) + seq![dec_digit(n as int % 10)] =~= old(
                out,
            )@ + spec_dec(n as int));
        }
    }
}

impl Chunk {
    /// Renders the chunk as a multi-line summary.
    pub fn render(&self) -> (r: String)
        ensures
            r@ == spec_render_chunk(self@),
    {
        let mut out = String::new();
        out.append("Chunk {\n  Length: ");
        push_dec(&mut out, self.length());
        out.append("\n  Type: ");
        let ts = self.chunk_type().to_string();
        out.append(ts.as_str());
        out.append("\n  Data: ");
        match self.data_as_string() {
            Ok(s) => {
                out.append(s.as_str());
            },
            Err(_) => {},
        }
        out.append("\n  Crc: ");
        push_dec(&mut out, self.crc());
        out.append("\n}\n");
        out
    }
}

/// Rendering one more chunk appends its rendering.
proof fn lemma_render_take_step(s: Seq<ChunkModel>, i: int)
    requires
        0 <= i < s.len(),
    ensures
        spec_render_png(s.take(i + 1)) == spec_render_png(s.take(i)) + spec_render_chunk(s[i]),
    decreases i,
{
    if i == 0 {
        assert(s.take(1)[0] == s[0]);
        assert(s.take(1).drop_first() =~= Seq::<ChunkModel>::empty());
        assert(s.take(0) =~= Seq::<ChunkModel>::empty());
        assert(spec_render_png(s.take(1)) == spec_render_chunk(s[0]) + spec_render_png(
            Seq::<ChunkModel>::empty(),
        ));
        assert(spec_render_chunk(s[0]) + Seq::<char>::empty() =~= Seq::<char>::empty()
            + spec_render_chunk(s[0]));
    } else {
        let sd = s.drop_first();
        lemma_render_take_step(sd, i - 1);
        assert(s.take(i + 1).drop_first() =~= sd.take(i));
        assert(s.take(i).drop_first() =~= sd.take(i - 1));
        assert(s.take(i + 1)[0] == s[0]);
        assert(s.take(i)[0] == s[0]);
        assert(sd[i - 1] == s[i]);
        assert(spec_render_png(s.take(i + 1)) == spec_render_chunk(s[0]) + spec_render_png(
            sd.take(i),
        ));
        assert(spec_render_png(s.take(i)) == spec_render_chunk(s[0]) + spec_render_png(
            sd.take(i - 1),
        ));
        assert(spec_render_chunk(s[0]) + (spec_render_png(sd.take(i - 1)) + spec_render_chunk(
            s[i],
        )) =~= (spec_render_chunk(s[0]) + spec_render_png(sd.take(i - 1))) + spec_render_chunk(
            s[i],
        ));
    }
}

impl Png {
    /// Renders every chunk of the container, in order.
    pub fn render(&self) -> (r: String)
        ensures
            r@ == spec_render_png(self@),
    {
        let mut out = String::new();
        let cs = self.chunks();
        let mut i: usize = 0;
        while i < cs.len()
            invariant
                i <= cs@.len(),
                cs@.len() == self@.len(),
                forall|k: int| 0 <= k < cs@.len() ==> (#[trigger] cs@[k])@ == self@[k],
                out@ == spec_render_png(self@.take(i as int)),
            decreases cs@.len() - i,
        {
            let c = &cs[i];
            let cr = c.render();
            out.append(cr.as_str());
            proof {
                lemma_render_take_step(self@, i as int);
            }
            i += 1;
        }
        proof {
            assert(self@.take(self@.len() as int) =~= self@);
        }
        out
    }
}

} // verus!
