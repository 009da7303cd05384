//! Reading back what was written: for a configuration whose values the text
//! format can carry, `parse_text(config_text(c)) == c`.

use vstd::prelude::*;
use crate::config::{ConfigView, MappingView, has_name, names_unique};
use crate::format::{
    ReadState, block_step, config_text, flush, new_block, parse_text, upsert, block_text, blocks_text, domain_list, domains_from, header_text, initial_state,
    lemma_find_char, list_text, number_line, number_or, quoted_line, read_from, step, unquote,
};
use crate::text::{
    decimal, field_value, find_char, is_space, lemma_decimal_digits, lemma_decimal_parses,
    starts_with, strip, strip_end, strip_start, trim, trim_end, trim_start,
};

verus! {

/// The lines, each followed by a line break.
pub open spec fn join(ls: Seq<Seq<char>>) -> Seq<char>
    decreases ls.len(),
{
    if ls.len() == 0 {
        Seq::empty()
    } else {
        ls[0] + "\n"@ + join(ls.drop_first())
    }
}

/// The reader after the lines `ls`, each trimmed, in order.
pub open spec fn read_lines(ls: Seq<Seq<char>>, st: ReadState) -> ReadState
    decreases ls.len(),
{
    if ls.len() == 0 {
        st
    } else {
        read_lines(ls.drop_first(), step(st, trim(ls[0])))
    }
}

pub open spec fn no_break(l: Seq<char>) -> bool {
    forall|i: int| 0 <= i < l.len() ==> #[trigger] l[i] != '\n'
}

proof fn lemma_join_append(a: Seq<Seq<char>>, b: Seq<Seq<char>>)
    ensures
        join(a + b) == join(a) + join(b),
    decreases a.len(),
{
    if a.len() > 0 {
        assert((a + b).drop_first() =~= a.drop_first() + b);
        lemma_join_append(a.drop_first(), b);
        assert(join(a + b) =~= join(a) + join(b));
    } else {
        assert(a + b =~= b);
    }
}

proof fn lemma_read_lines_append(a: Seq<Seq<char>>, b: Seq<Seq<char>>, st: ReadState)
    ensures
        read_lines(a + b, st) == read_lines(b, read_lines(a, st)),
    decreases a.len(),
{
    if a.len() > 0 {
        assert((a + b).drop_first() =~= a.drop_first() + b);
        lemma_read_lines_append(a.drop_first(), b, step(st, trim(a[0])));
    } else {
        assert(a + b =~= b);
    }
}

proof fn lemma_find_shift(a: Seq<char>, b: Seq<char>, c: char, p: int)
    requires
        0 <= p <= b.len(),
    ensures
        find_char(a + b, c, a.len() + p) == a.len() + find_char(b, c, p),
    decreases b.len() - p,
{
    if p < b.len() {
        assert((a + b)[a.len() + p] == b[p]);
        if b[p] != c {
            lemma_find_shift(a, b, c, p + 1);
        }
    }
}

proof fn lemma_read_shift(a: Seq<char>, b: Seq<char>, p: int, st: ReadState)
    requires
        0 <= p <= b.len(),
    ensures
        read_from(a + b, a.len() + p, st) == read_from(b, p, st),
    decreases b.len() - p,
{
    let s = a + b;
    lemma_find_shift(a, b, '\n', p);
    lemma_find_char(b, '\n', p);
    let i = find_char(b, '\n', p);
    assert(s.subrange(a.len() + p, a.len() + i) =~= b.subrange(p, i));
    if i < b.len() {
        lemma_read_shift(a, b, i + 1, step(st, trim(b.subrange(p, i))));
    }
}

/// Reading lines that hold no line break, each followed by one, reads them
/// one after the other.
proof fn lemma_read_join(ls: Seq<Seq<char>>, rest: Seq<char>, st: ReadState)
    requires
        forall|k: int| 0 <= k < ls.len() ==> no_break(#[trigger] ls[k]),
    ensures
        read_from(join(ls) + rest, 0, st) == read_from(rest, 0, read_lines(ls, st)),
    decreases ls.len(),
{
    if ls.len() == 0 {
        assert(join(ls) + rest =~= rest);
    } else {
        let l = ls[0];
        let tail = join(ls.drop_first()) + rest;
        let head = l + "\n"@;
        reveal_strlit("\n");
        let s = join(ls) + rest;
        assert(s =~= head + tail);
        assert(no_break(l));
        assert(forall|k: int| 0 <= k < l.len() ==> s[k] == l[k]);
        assert(s[l.len() as int] == '\n');
        lemma_find_char(s, '\n', 0);
        let i = find_char(s, '\n', 0);
        if i < l.len() {
            assert(s[i] == l[i]);
        }
        assert(i == l.len());
        assert(s.subrange(0, i) =~= l);
        lemma_read_shift(head, tail, 0, step(st, trim(l)));
        assert(head.len() + 0 == i + 1);
        lemma_read_join(ls.drop_first(), rest, step(st, trim(l)));
    }
}

/// A value that a `key = "value"` line carries unchanged: no `=`, no line
/// break, and no double quote at either end.
pub open spec fn plain(v: Seq<char>) -> bool {
    &&& forall|i: int| 0 <= i < v.len() ==> #[trigger] v[i] != '=' && v[i] != '\n'
    &&& v.len() > 0 ==> v[0] != '"' && v.last() != '"'
}

/// A key of the format: not empty, not starting with whitespace, with no `=`
/// and no line break.
pub open spec fn key_ok(k: Seq<char>) -> bool {
    &&& k.len() > 0
    &&& !is_space(k[0])
    &&& forall|i: int| 0 <= i < k.len() ==> #[trigger] k[i] != '=' && k[i] != '\n'
}

/// `key = "v"`, without its line break.
pub open spec fn qtext(k: Seq<char>, v: Seq<char>) -> Seq<char> {
    k + " = \""@ + v + "\""@
}

/// `key = n`, without its line break.
pub open spec fn ntext(k: Seq<char>, n: u16) -> Seq<char> {
    k + " = "@ + decimal(n as nat)
}

proof fn lemma_find_is(s: Seq<char>, c: char, i: int, j: int)
    requires
        0 <= i <= j <= s.len(),
        j < s.len() ==> s[j] == c,
        forall|k: int| i <= k < j ==> s[k] != c,
    ensures
        find_char(s, c, i) == j,
{
    lemma_find_char(s, c, i);
    let r = find_char(s, c, i);
    if r < j {
        assert(s[r] == c);
    }
    if r > j {
        assert(s[j] != c);
    }
}

proof fn lemma_prefix(k: Seq<char>, rest: Seq<char>)
    ensures
        starts_with(k + rest, k),
{
    assert((k + rest).subrange(0, k.len() as int) =~= k);
}

/// `s` does not start with `p` where they differ at `i`.
pub proof fn lemma_not_prefix(s: Seq<char>, p: Seq<char>, i: int)
    requires
        0 <= i < p.len(),
        i < s.len(),
        s[i] != p[i],
    ensures
        !starts_with(s, p),
{
    if starts_with(s, p) {
        assert(s.subrange(0, p.len() as int)[i] == s[i]);
    }
}

proof fn lemma_unquote(v: Seq<char>)
    requires
        plain(v),
    ensures
        unquote(" \""@ + v + "\""@) == v,
{
    reveal_strlit(" \"");
    reveal_strlit("\"");
    let w = " \""@ + v + "\""@;
    let q = seq!['"'] + v + seq!['"'];
    assert(w.drop_first() =~= q);
    assert(trim_start(w) == trim_start(q));
    assert(trim_start(q) == q);
    assert(trim(w) == q);
    let r = v + seq!['"'];
    assert(q.drop_first() =~= r);
    if v.len() > 0 {
        assert(r[0] == v[0]);
        assert(q[0] == '"');
        assert(strip_start(r, '"') == r);
        assert(strip_start(q, '"') == strip_start(q.drop_first(), '"'));
        assert(strip_start(q, '"') == r);
        assert(r.drop_last() =~= v);
        assert(strip_end(r, '"') == strip_end(v, '"'));
        assert(strip_end(v, '"') == v);
    } else {
        assert(r =~= seq!['"']);
        assert(r.drop_first() =~= Seq::<char>::empty());
        assert(strip_start(r.drop_first(), '"') == Seq::<char>::empty());
        assert(r[0] == '"');
        assert(strip_start(r, '"') == Seq::<char>::empty());
        assert(q[0] == '"');
        assert(strip_start(q, '"') == strip_start(q.drop_first(), '"'));
        assert(strip_start(q, '"') == Seq::<char>::empty());
        assert(strip(q, '"') =~= v);
    }
}

/// What the reader sees in a `key = "v"` line.
pub proof fn lemma_quoted_line(k: Seq<char>, v: Seq<char>)
    requires
        key_ok(k),
        plain(v),
    ensures
        trim(qtext(k, v)) == qtext(k, v),
        no_break(qtext(k, v)),
        starts_with(qtext(k, v), k),
        field_value(qtext(k, v)) == Some(" \""@ + v + "\""@),
        unquote(" \""@ + v + "\""@) == v,
{
    reveal_strlit(" = \"");
    reveal_strlit(" \"");
    reveal_strlit("\"");
    let s = qtext(k, v);
    let kl = k.len() as int;
    assert(s[0] == k[0]);
    assert(s.last() == '"');
    assert(trim_start(s) == s);
    assert(trim_end(s) == s);
    assert forall|i: int| 0 <= i < s.len() implies #[trigger] s[i] != '\n' by {
        if i < kl {
            assert(s[i] == k[i]);
        } else if i >= kl + 4 && i < kl + 4 + v.len() {
            assert(s[i] == v[i - kl - 4]);
        }
    }
    assert(k + " = \""@ + v + "\""@ == k + (" = \""@ + v + "\""@)) by {
        assert(k + " = \""@ + v + "\""@ =~= k + (" = \""@ + v + "\""@));
    }
    lemma_prefix(k, " = \""@ + v + "\""@);
    assert forall|i: int| 0 <= i < kl + 1 implies s[i] != '=' by {
        if i < kl {
            assert(s[i] == k[i]);
        }
    }
    lemma_find_is(s, '=', 0, kl + 1);
    assert forall|i: int| kl + 2 <= i < s.len() implies s[i] != '=' by {
        if i >= kl + 4 && i < kl + 4 + v.len() {
            assert(s[i] == v[i - kl - 4]);
        }
    }
    lemma_find_is(s, '=', kl + 2, s.len() as int);
    assert(s.subrange(kl + 2, s.len() as int) =~= " \""@ + v + "\""@);
    lemma_unquote(v);
}

/// What the reader sees in a `key = n` line.
pub proof fn lemma_number_line(k: Seq<char>, n: u16, fallback: u16)
    requires
        key_ok(k),
    ensures
        trim(ntext(k, n)) == ntext(k, n),
        no_break(ntext(k, n)),
        starts_with(ntext(k, n), k),
        field_value(ntext(k, n)) == Some(seq![' '] + decimal(n as nat)),
        number_or(seq![' '] + decimal(n as nat), fallback) == n,
{
    reveal_strlit(" = ");
    let d = decimal(n as nat);
    lemma_decimal_digits(n as nat);
    lemma_decimal_parses(n);
    let s = ntext(k, n);
    let kl = k.len() as int;
    assert(s[0] == k[0]);
    assert(s.last() == d.last());
    assert(crate::text::is_digit(d[d.len() - 1]));
    assert(trim_start(s) == s);
    assert(trim_end(s) == s);
    assert forall|i: int| 0 <= i < s.len() implies #[trigger] s[i] != '\n' by {
        if i < kl {
            assert(s[i] == k[i]);
        } else if i >= kl + 3 {
            assert(s[i] == d[i - kl - 3]);
            assert(crate::text::is_digit(d[i - kl - 3]));
        }
    }
    assert(k + " = "@ + d =~= k + (" = "@ + d));
    lemma_prefix(k, " = "@ + d);
    assert forall|i: int| 0 <= i < kl + 1 implies s[i] != '=' by {
        if i < kl {
            assert(s[i] == k[i]);
        }
    }
    lemma_find_is(s, '=', 0, kl + 1);
    assert forall|i: int| kl + 2 <= i < s.len() implies s[i] != '=' by {
        if i >= kl + 3 {
            assert(s[i] == d[i - kl - 3]);
            assert(crate::text::is_digit(d[i - kl - 3]));
        }
    }
    lemma_find_is(s, '=', kl + 2, s.len() as int);
    let w = seq![' '] + d;
    assert(s.subrange(kl + 2, s.len() as int) =~= w);
    assert(w.drop_first() =~= d);
    assert(crate::text::is_digit(d[0]));
    assert(trim_start(d) == d);
    assert(w[0] == ' ');
    assert(trim_start(w) == trim_start(w.drop_first()));
    assert(trim_start(w) == d);
    assert(trim_end(d) == d);
}

/// The header, line by line.
pub open spec fn header_lines(c: ConfigView) -> Seq<Seq<char>> {
    seq![qtext("serverAddr"@, c.server_addr), ntext("serverPort"@, c.server_port)] + (if c.token.len()
        > 0 {
        seq![qtext("auth.token"@, c.token)]
    } else {
        Seq::empty()
    }) + (if c.user.len() > 0 {
        seq![qtext("user"@, c.user)]
    } else {
        Seq::empty()
    }) + seq![Seq::empty()]
}

/// The domain-list line of a block, without its line break.
pub open spec fn domains_line(ds: Seq<Seq<char>>) -> Seq<char> {
    "customDomains = ["@ + list_text(ds) + "]"@
}

/// A block, line by line.
pub open spec fn block_lines(m: MappingView) -> Seq<Seq<char>> {
    seq![
        "[[proxies]]"@,
        qtext("name"@, m.name),
        qtext("type"@, m.protocol),
        qtext("localIP"@, m.local_ip),
        ntext("localPort"@, m.local_port),
        ntext("remotePort"@, m.remote_port),
    ] + (match m.subdomain {
        Some(sd) => seq![qtext("subdomain"@, sd)],
        None => Seq::empty(),
    }) + (match m.custom_domains {
        Some(ds) => if ds.len() > 0 {
            seq![domains_line(ds)]
        } else {
            Seq::empty()
        },
        None => Seq::empty(),
    }) + seq![Seq::empty()]
}

pub open spec fn blocks_lines(ms: Seq<MappingView>) -> Seq<Seq<char>>
    decreases ms.len(),
{
    if ms.len() == 0 {
        Seq::empty()
    } else {
        blocks_lines(ms.drop_last()) + block_lines(ms.last())
    }
}

proof fn lemma_join_one(x: Seq<char>)
    ensures
        join(seq![x]) == x + "\n"@,
{
    let l = seq![x];
    assert(l.drop_first() =~= Seq::<Seq<char>>::empty());
    assert(l[0] == x);
    assert(join(l.drop_first()) == Seq::<char>::empty());
    assert(join(l) == x + "\n"@ + join(l.drop_first()));
    assert(join(l) =~= x + "\n"@);
}

proof fn lemma_quoted_join(k: Seq<char>, v: Seq<char>)
    ensures
        join(seq![qtext(k, v)]) == quoted_line(k, v),
{
    reveal_strlit("\"\n");
    reveal_strlit("\"");
    reveal_strlit("\n");
    lemma_join_one(qtext(k, v));
    assert(qtext(k, v) + "\n"@ =~= quoted_line(k, v));
}

proof fn lemma_number_join(k: Seq<char>, n: u16)
    ensures
        join(seq![ntext(k, n)]) == number_line(k, n),
{
    lemma_join_one(ntext(k, n));
    assert(ntext(k, n) + "\n"@ =~= number_line(k, n));
}

proof fn lemma_header_join(c: ConfigView)
    ensures
        join(header_lines(c)) == header_text(c),
{
    let a = seq![qtext("serverAddr"@, c.server_addr)];
    let b = seq![ntext("serverPort"@, c.server_port)];
    let t = if c.token.len() > 0 {
        seq![qtext("auth.token"@, c.token)]
    } else {
        Seq::empty()
    };
    let u = if c.user.len() > 0 {
        seq![qtext("user"@, c.user)]
    } else {
        Seq::empty()
    };
    let e = seq![Seq::<char>::empty()];
    assert(header_lines(c) =~= a + b + t + u + e);
    lemma_join_append(a + b + t + u, e);
    lemma_join_append(a + b + t, u);
    lemma_join_append(a + b, t);
    lemma_join_append(a, b);
    lemma_quoted_join("serverAddr"@, c.server_addr);
    lemma_number_join("serverPort"@, c.server_port);
    lemma_quoted_join("auth.token"@, c.token);
    lemma_quoted_join("user"@, c.user);
    lemma_join_one(Seq::<char>::empty());
    assert(Seq::<char>::empty() + "\n"@ =~= "\n"@);
    assert(join(Seq::<Seq<char>>::empty()) == Seq::<char>::empty());
    assert(join(header_lines(c)) =~= header_text(c));
}

proof fn lemma_block_join(m: MappingView)
    ensures
        join(block_lines(m)) == block_text(m),
{
    reveal_strlit("[[proxies]]\n");
    reveal_strlit("[[proxies]]");
    reveal_strlit("]\n");
    reveal_strlit("]");
    reveal_strlit("\n");
    let a = seq![
        "[[proxies]]"@,
        qtext("name"@, m.name),
        qtext("type"@, m.protocol),
        qtext("localIP"@, m.local_ip),
        ntext("localPort"@, m.local_port),
        ntext("remotePort"@, m.remote_port),
    ];
    let sd = match m.subdomain {
        Some(sd) => seq![qtext("subdomain"@, sd)],
        None => Seq::empty(),
    };
    let dl = match m.custom_domains {
        Some(ds) => if ds.len() > 0 {
            seq![domains_line(ds)]
        } else {
            Seq::empty()
        },
        None => Seq::empty(),
    };
    let e = seq![Seq::<char>::empty()];
    assert(block_lines(m) == a + sd + dl + e);
    lemma_join_append(a + sd + dl, e);
    lemma_join_append(a + sd, dl);
    lemma_join_append(a, sd);
    let a0 = seq!["[[proxies]]"@];
    let a1 = seq![qtext("name"@, m.name)];
    let a2 = seq![qtext("type"@, m.protocol)];
    let a3 = seq![qtext("localIP"@, m.local_ip)];
    let a4 = seq![ntext("localPort"@, m.local_port)];
    let a5 = seq![ntext("remotePort"@, m.remote_port)];
    assert(a =~= a0 + a1 + a2 + a3 + a4 + a5);
    lemma_join_append(a0 + a1 + a2 + a3 + a4, a5);
    lemma_join_append(a0 + a1 + a2 + a3, a4);
    lemma_join_append(a0 + a1 + a2, a3);
    lemma_join_append(a0 + a1, a2);
    lemma_join_append(a0, a1);
    lemma_join_one("[[proxies]]"@);
    lemma_quoted_join("name"@, m.name);
    lemma_quoted_join("type"@, m.protocol);
    lemma_quoted_join("localIP"@, m.local_ip);
    lemma_number_join("localPort"@, m.local_port);
    lemma_number_join("remotePort"@, m.remote_port);
    assert(join(a) =~= "[[proxies]]\n"@ + quoted_line("name"@, m.name) + quoted_line("type"@, m.protocol)
        + quoted_line("localIP"@, m.local_ip) + number_line("localPort"@, m.local_port)
        + number_line("remotePort"@, m.remote_port));
    match m.subdomain {
        Some(v) => lemma_quoted_join("subdomain"@, v),
        None => {},
    }
    match m.custom_domains {
        Some(ds) => {
            lemma_join_one(domains_line(ds));
            assert(domains_line(ds) + "\n"@ =~= "customDomains = ["@ + list_text(ds) + "]\n"@);
        },
        None => {},
    }
    assert(join(sd + dl) =~= crate::format::extras_text(m)) by {
        lemma_join_append(sd, dl);
    }
    lemma_join_one(Seq::<char>::empty());
    assert(join(Seq::<Seq<char>>::empty()) == Seq::<char>::empty());
    assert(join(a + sd + dl) =~= join(a) + join(sd + dl)) by {
        lemma_join_append(a, sd + dl);
        assert(a + sd + dl =~= a + (sd + dl));
    }
    assert(join(block_lines(m)) =~= block_text(m));
}

proof fn lemma_blocks_join(ms: Seq<MappingView>)
    ensures
        join(blocks_lines(ms)) == blocks_text(ms),
    decreases ms.len(),
{
    if ms.len() > 0 {
        lemma_blocks_join(ms.drop_last());
        lemma_join_append(blocks_lines(ms.drop_last()), block_lines(ms.last()));
        lemma_block_join(ms.last());
    }
}

proof fn lemma_key(k: &str)
    requires
        k@.len() > 0,
        !is_space(k@[0]),
        forall|i: int| 0 <= i < k@.len() ==> 'A' <= #[trigger] k@[i] <= 'z' || k@[i] == '.',
    ensures
        key_ok(k@),
{
}

/// The keys of the format are keys in the sense of `key_ok`.
proof fn lemma_keys()
    ensures
        key_ok("serverAddr"@),
        key_ok("serverPort"@),
        key_ok("auth.token"@),
        key_ok("user"@),
        key_ok("name"@),
        key_ok("type"@),
        key_ok("localIP"@),
        key_ok("localPort"@),
        key_ok("remotePort"@),
        key_ok("subdomain"@),
{
    reveal_strlit("serverAddr");
    reveal_strlit("serverPort");
    reveal_strlit("auth.token");
    reveal_strlit("user");
    reveal_strlit("name");
    reveal_strlit("type");
    reveal_strlit("localIP");
    reveal_strlit("localPort");
    reveal_strlit("remotePort");
    reveal_strlit("subdomain");
    lemma_key("serverAddr");
    lemma_key("serverPort");
    lemma_key("auth.token");
    lemma_key("user");
    lemma_key("name");
    lemma_key("type");
    lemma_key("localIP");
    lemma_key("localPort");
    lemma_key("remotePort");
    lemma_key("subdomain");
}

proof fn lemma_read_one(l: Seq<char>, st: ReadState)
    ensures
        read_lines(seq![l], st) == step(st, trim(l)),
{
    let ls = seq![l];
    assert(ls.drop_first() =~= Seq::<Seq<char>>::empty());
    assert(ls[0] == l);
    assert(read_lines(ls.drop_first(), step(st, trim(l))) == step(st, trim(l)));
}

/// An empty line changes nothing.
proof fn lemma_step_empty(st: ReadState)
    ensures
        step(st, Seq::<char>::empty()) == st,
{
    reveal_strlit("serverAddr");
    reveal_strlit("serverPort");
    reveal_strlit("auth.token");
    reveal_strlit("user");
    reveal_strlit("[[proxies]]");
    let e = Seq::<char>::empty();
    assert(find_char(e, '=', 0) == 0);
    assert(field_value(e) is None);
}

/// Reading the header of `c` from the start gives `c`'s server fields and no
/// mappings yet.
proof fn lemma_read_header(c: ConfigView)
    requires
        plain(c.server_addr),
        plain(c.token),
        plain(c.user),
    ensures
        read_lines(header_lines(c), initial_state()) == (ReadState {
            cfg: ConfigView { mappings: Seq::empty(), ..c },
            current: None,
            current_name: Seq::empty(),
        }),
{
    reveal_strlit("serverAddr");
    reveal_strlit("serverPort");
    reveal_strlit("auth.token");
    reveal_strlit("user");
    reveal_strlit("[[proxies]]");
    lemma_keys();
    let a = seq![qtext("serverAddr"@, c.server_addr)];
    let b = seq![ntext("serverPort"@, c.server_port)];
    let t = if c.token.len() > 0 {
        seq![qtext("auth.token"@, c.token)]
    } else {
        Seq::empty()
    };
    let u = if c.user.len() > 0 {
        seq![qtext("user"@, c.user)]
    } else {
        Seq::empty()
    };
    let e = seq![Seq::<char>::empty()];
    assert(header_lines(c) =~= a + b + t + u + e);
    lemma_read_lines_append(a + b + t + u, e, initial_state());
    lemma_read_lines_append(a + b + t, u, initial_state());
    lemma_read_lines_append(a + b, t, initial_state());
    lemma_read_lines_append(a, b, initial_state());
    let st0 = initial_state();
    let la = qtext("serverAddr"@, c.server_addr);
    lemma_quoted_line("serverAddr"@, c.server_addr);
    lemma_read_one(la, st0);
    let st1 = ReadState { cfg: ConfigView { server_addr: c.server_addr, ..st0.cfg }, ..st0 };
    assert(read_lines(a, st0) == st1);
    let lb = ntext("serverPort"@, c.server_port);
    lemma_number_line("serverPort"@, c.server_port, crate::config::DEFAULT_SERVER_PORT);
    lemma_not_prefix(lb, "serverAddr"@, 6);
    lemma_read_one(lb, st1);
    let st2 = ReadState { cfg: ConfigView { server_port: c.server_port, ..st1.cfg }, ..st1 };
    assert(read_lines(b, st1) == st2);
    let st3 = ReadState { cfg: ConfigView { token: c.token, ..st2.cfg }, ..st2 };
    if c.token.len() > 0 {
        let lt = qtext("auth.token"@, c.token);
        lemma_quoted_line("auth.token"@, c.token);
        lemma_not_prefix(lt, "serverAddr"@, 0);
        lemma_not_prefix(lt, "serverPort"@, 0);
        lemma_read_one(lt, st2);
        assert(read_lines(t, st2) == st3);
    } else {
        assert(c.token =~= Seq::<char>::empty());
        assert(read_lines(t, st2) == st3);
    }
    let st4 = ReadState { cfg: ConfigView { user: c.user, ..st3.cfg }, ..st3 };
    if c.user.len() > 0 {
        let lu = qtext("user"@, c.user);
        lemma_quoted_line("user"@, c.user);
        lemma_not_prefix(lu, "serverAddr"@, 0);
        lemma_not_prefix(lu, "serverPort"@, 0);
        lemma_not_prefix(lu, "auth.token"@, 0);
        lemma_read_one(lu, st3);
        assert(read_lines(u, st3) == st4);
    } else {
        assert(c.user =~= Seq::<char>::empty());
        assert(read_lines(u, st3) == st4);
    }
    lemma_read_one(Seq::<char>::empty(), st4);
    lemma_step_empty(st4);
    assert(trim(Seq::<char>::empty()) == Seq::<char>::empty());
    assert(st4.cfg == ConfigView { mappings: Seq::empty(), ..c });
}

/// A domain that a domain list carries unchanged: a plain value that is not
/// empty and holds no comma.
pub open spec fn plain_domain(d: Seq<char>) -> bool {
    &&& plain(d)
    &&& d.len() > 0
    &&& forall|i: int| 0 <= i < d.len() ==> #[trigger] d[i] != ','
}

pub open spec fn quote(d: Seq<char>) -> Seq<char> {
    seq!['"'] + d + seq!['"']
}

proof fn lemma_unquote_lead(lead: Seq<char>, v: Seq<char>)
    requires
        plain(v),
        lead == Seq::<char>::empty() || lead == seq![' '],
    ensures
        unquote(lead + quote(v)) == v,
{
    let q = quote(v);
    let w = lead + q;
    assert(q[0] == '"');
    assert(trim_start(q) == q);
    if lead.len() > 0 {
        assert(w.drop_first() =~= q);
        assert(w[0] == ' ');
        assert(trim_start(w) == trim_start(w.drop_first()));
    } else {
        assert(w =~= q);
    }
    assert(trim_start(w) == q);
    assert(q.last() == '"');
    assert(trim_end(q) == q);
    let r = v + seq!['"'];
    assert(q.drop_first() =~= r);
    assert(strip_start(q, '"') == strip_start(q.drop_first(), '"'));
    if v.len() > 0 {
        assert(r[0] == v[0]);
        assert(strip_start(r, '"') == r);
        assert(r.drop_last() =~= v);
        assert(strip_end(r, '"') == strip_end(v, '"'));
        assert(strip_end(v, '"') == v);
    } else {
        assert(r =~= seq!['"']);
        assert(r.drop_first() =~= Seq::<char>::empty());
        assert(strip_start(r.drop_first(), '"') == Seq::<char>::empty());
        assert(strip_start(r, '"') == Seq::<char>::empty());
        assert(strip(q, '"') =~= v);
    }
}

proof fn lemma_list_front(ds: Seq<Seq<char>>)
    requires
        ds.len() >= 2,
    ensures
        list_text(ds) == quote(ds[0]) + seq![',', ' '] + list_text(ds.drop_first()),
    decreases ds.len(),
{
    reveal_strlit("\"");
    reveal_strlit(", ");
    let t = ds.drop_first();
    if ds.len() == 2 {
        assert(ds.drop_last().len() == 1);
        assert(t.len() == 1);
        assert(list_text(ds.drop_last()) == "\""@ + ds[0] + "\""@);
        assert(list_text(t) == "\""@ + t[0] + "\""@);
        assert(list_text(ds) =~= quote(ds[0]) + seq![',', ' '] + list_text(t));
    } else {
        lemma_list_front(ds.drop_last());
        assert(ds.drop_last().drop_first() =~= t.drop_last());
        assert(t.last() == ds.last());
        assert(list_text(ds) =~= quote(ds[0]) + seq![',', ' '] + list_text(t));
    }
}

proof fn lemma_list_ends(ds: Seq<Seq<char>>)
    requires
        ds.len() >= 1,
        forall|k: int| 0 <= k < ds.len() ==> plain_domain(#[trigger] ds[k]),
    ensures
        list_text(ds).len() >= 2,
        list_text(ds)[0] == '"',
        list_text(ds).last() == '"',
        forall|i: int|
            0 <= i < list_text(ds).len() ==> #[trigger] list_text(ds)[i] != '=' && list_text(
                ds,
            )[i] != '\n',
    decreases ds.len(),
{
    reveal_strlit("\"");
    reveal_strlit(", ");
    let l = list_text(ds);
    let d = ds.last();
    assert(plain_domain(d));
    if ds.len() == 1 {
        assert(l == seq!['"'] + d + seq!['"']);
        assert forall|i: int| 0 <= i < l.len() implies #[trigger] l[i] != '=' && l[i] != '\n' by {
            if 0 < i < l.len() - 1 {
                assert(l[i] == d[i - 1]);
            }
        }
    } else {
        let p = ds.drop_last();
        lemma_list_ends(p);
        let lp = list_text(p);
        assert(l == lp + seq![',', ' '] + seq!['"'] + d + seq!['"']);
        assert(l[0] == lp[0]);
        assert forall|i: int| 0 <= i < l.len() implies #[trigger] l[i] != '=' && l[i] != '\n' by {
            if i < lp.len() {
                assert(l[i] == lp[i]);
            } else if lp.len() + 3 <= i < lp.len() + 3 + d.len() {
                assert(l[i] == d[i - lp.len() - 3]);
            }
        }
    }
}

proof fn lemma_domains_shift(a: Seq<char>, b: Seq<char>, p: int)
    requires
        0 <= p <= b.len(),
    ensures
        domains_from(a + b, a.len() + p) == domains_from(b, p),
    decreases b.len() - p,
{
    lemma_find_shift(a, b, ',', p);
    lemma_find_char(b, ',', p);
    let i = find_char(b, ',', p);
    assert((a + b).subrange(a.len() + p, a.len() + i) =~= b.subrange(p, i));
    if i < b.len() {
        lemma_domains_shift(a, b, i + 1);
    }
}

/// Splitting a written domain list gives the domains back.
proof fn lemma_domains(ds: Seq<Seq<char>>, lead: Seq<char>)
    requires
        ds.len() >= 1,
        forall|k: int| 0 <= k < ds.len() ==> plain_domain(#[trigger] ds[k]),
        lead == Seq::<char>::empty() || lead == seq![' '],
    ensures
        domains_from(lead + list_text(ds), 0) == ds,
    decreases ds.len(),
{
    reveal_strlit("\"");
    let d0 = ds[0];
    assert(plain_domain(d0));
    let s = lead + list_text(ds);
    let h = lead + quote(d0);
    assert forall|i: int| 0 <= i < h.len() implies #[trigger] h[i] != ',' by {
        if lead.len() <= i && i < lead.len() + 1 + d0.len() && i > lead.len() {
            assert(h[i] == d0[i - lead.len() - 1]);
        }
    }
    lemma_unquote_lead(lead, d0);
    if ds.len() == 1 {
        assert(list_text(ds) == "\""@ + ds[0] + "\""@);
        assert(s =~= h);
        lemma_find_is(s, ',', 0, s.len() as int);
        assert(s.subrange(0, s.len() as int) =~= h);
        assert(domains_from(s, s.len() as int + 1) == Seq::<Seq<char>>::empty());
        assert(domains_from(s, 0) =~= seq![d0]);
        assert(seq![d0] =~= ds);
    } else {
        let t = ds.drop_first();
        lemma_list_front(ds);
        let rest = seq![' '] + list_text(t);
        assert(s =~= h + seq![','] + rest);
        assert(s[h.len() as int] == ',');
        assert forall|i: int| 0 <= i < h.len() implies s[i] != ',' by {
            assert(s[i] == h[i]);
        }
        lemma_find_is(s, ',', 0, h.len() as int);
        assert(s.subrange(0, h.len() as int) =~= h);
        lemma_domains_shift(h + seq![','], rest, 0);
        assert(h + seq![','] + rest =~= s);
        lemma_domains(t, seq![' ']);
        assert(domains_from(s, 0) =~= seq![d0] + t);
        assert(seq![d0] + t =~= ds);
    }
}

proof fn lemma_domains_line(ds: Seq<Seq<char>>)
    requires
        ds.len() >= 1,
        forall|k: int| 0 <= k < ds.len() ==> plain_domain(#[trigger] ds[k]),
    ensures
        trim(domains_line(ds)) == domains_line(ds),
        no_break(domains_line(ds)),
        starts_with(domains_line(ds), "customDomains"@),
        field_value(domains_line(ds)) is Some,
        domain_list(field_value(domains_line(ds))->0) == ds,
{
    reveal_strlit("customDomains = [");
    reveal_strlit("customDomains");
    reveal_strlit("]");
    lemma_list_ends(ds);
    let l = list_text(ds);
    let k = "customDomains = ["@;
    let line = domains_line(ds);
    assert(line == k + l + seq![']']);
    assert(line[0] == 'c');
    assert(line.last() == ']');
    assert(trim_start(line) == line);
    assert(trim_end(line) == line);
    assert forall|i: int| 0 <= i < line.len() implies #[trigger] line[i] != '\n' by {
        if 17 <= i < 17 + l.len() {
            assert(line[i] == l[i - 17]);
        }
    }
    assert(line.subrange(0, 13) =~= "customDomains"@);
    assert forall|i: int| 0 <= i < 14 implies line[i] != '=' by {
    }
    lemma_find_is(line, '=', 0, 14);
    assert forall|i: int| 15 <= i < line.len() implies line[i] != '=' by {
        if 17 <= i < 17 + l.len() {
            assert(line[i] == l[i - 17]);
        }
    }
    lemma_find_is(line, '=', 15, line.len() as int);
    let v = line.subrange(15, line.len() as int);
    assert(v =~= seq![' ', '['] + l + seq![']']);
    let t = seq!['['] + l + seq![']'];
    assert(v.drop_first() =~= t);
    assert(trim_start(t) == t);
    assert(trim_start(v) == trim_start(v.drop_first()));
    assert(trim_end(t) == t);
    assert(trim(v) == t);
    let u = l + seq![']'];
    assert(t.drop_first() =~= u);
    assert(u[0] == '"');
    assert(strip_start(u, '[') == u);
    assert(strip_start(t, '[') == strip_start(t.drop_first(), '['));
    assert(strip_end(u, '[') == u);
    assert(strip(t, '[') == u);
    assert(strip_start(u, ']') == u);
    assert(u.drop_last() =~= l);
    assert(strip_end(l, ']') == l);
    assert(strip_end(u, ']') == strip_end(u.drop_last(), ']'));
    assert(strip(u, ']') == l);
    lemma_domains(ds, Seq::<char>::empty());
    assert(Seq::<char>::empty() + l =~= l);
}

/// A mapping whose values the text format carries unchanged.
pub open spec fn storable_mapping(m: MappingView) -> bool {
    &&& plain(m.name)
    &&& plain(m.protocol)
    &&& plain(m.local_ip)
    &&& m.subdomain matches Some(v) ==> plain(v)
    &&& m.custom_domains matches Some(ds) ==> ds.len() > 0 && forall|k: int|
        0 <= k < ds.len() ==> plain_domain(#[trigger] ds[k])
}

/// The reader once a block has been opened and its fixed lines read.
pub open spec fn fixed_read(m: MappingView, st: ReadState) -> ReadState {
    ReadState {
        cfg: flush(st),
        current: Some(
            MappingView {
                name: m.name,
                protocol: m.protocol,
                local_ip: m.local_ip,
                local_port: m.local_port,
                remote_port: m.remote_port,
                ..new_block()
            },
        ),
        current_name: m.name,
    }
}

proof fn lemma_read_fixed(m: MappingView, st: ReadState)
    requires
        storable_mapping(m),
    ensures
        read_lines(block_lines(m).subrange(0, 6), st) == fixed_read(m, st),
{
    reveal_strlit("serverAddr");
    reveal_strlit("serverPort");
    reveal_strlit("auth.token");
    reveal_strlit("user");
    reveal_strlit("[[proxies]]");
    reveal_strlit("name");
    reveal_strlit("type");
    reveal_strlit("localIP");
    reveal_strlit("localPort");
    reveal_strlit("remotePort");
    lemma_keys();
    let l0 = "[[proxies]]"@;
    let l1 = qtext("name"@, m.name);
    let l2 = qtext("type"@, m.protocol);
    let l3 = qtext("localIP"@, m.local_ip);
    let l4 = ntext("localPort"@, m.local_port);
    let l5 = ntext("remotePort"@, m.remote_port);
    assert(block_lines(m).subrange(0, 6) =~= seq![l0] + seq![l1] + seq![l2] + seq![l3] + seq![l4] + seq![l5]);
    lemma_read_lines_append(seq![l0] + seq![l1] + seq![l2] + seq![l3] + seq![l4], seq![l5], st);
    lemma_read_lines_append(seq![l0] + seq![l1] + seq![l2] + seq![l3], seq![l4], st);
    lemma_read_lines_append(seq![l0] + seq![l1] + seq![l2], seq![l3], st);
    lemma_read_lines_append(seq![l0] + seq![l1], seq![l2], st);
    lemma_read_lines_append(seq![l0], seq![l1], st);
    // the opening line
    assert(trim_start(l0) == l0);
    assert(trim_end(l0) == l0);
    lemma_not_prefix(l0, "serverAddr"@, 0);
    lemma_not_prefix(l0, "serverPort"@, 0);
    lemma_not_prefix(l0, "auth.token"@, 0);
    lemma_not_prefix(l0, "user"@, 0);
    assert(l0.subrange(0, l0.len() as int) =~= l0);
    lemma_read_one(l0, st);
    let s1 = ReadState { cfg: flush(st), current: Some(new_block()), current_name: st.current_name };
    assert(read_lines(seq![l0], st) == s1);
    // name
    lemma_quoted_line("name"@, m.name);
    lemma_not_prefix(l1, "serverAddr"@, 0);
    lemma_not_prefix(l1, "serverPort"@, 0);
    lemma_not_prefix(l1, "auth.token"@, 0);
    lemma_not_prefix(l1, "user"@, 0);
    lemma_not_prefix(l1, "[[proxies]]"@, 0);
    lemma_read_one(l1, s1);
    let b2 = MappingView { name: m.name, ..new_block() };
    assert(block_step(new_block(), l1) == b2);
    let s2 = ReadState { cfg: flush(st), current: Some(b2), current_name: m.name };
    assert(read_lines(seq![l1], s1) == s2);
    // type
    lemma_quoted_line("type"@, m.protocol);
    lemma_not_prefix(l2, "serverAddr"@, 0);
    lemma_not_prefix(l2, "serverPort"@, 0);
    lemma_not_prefix(l2, "auth.token"@, 0);
    lemma_not_prefix(l2, "user"@, 0);
    lemma_not_prefix(l2, "[[proxies]]"@, 0);
    lemma_not_prefix(l2, "name"@, 0);
    lemma_read_one(l2, s2);
    let b3 = MappingView { protocol: m.protocol, ..b2 };
    let s3 = ReadState { cfg: flush(st), current: Some(b3), current_name: m.name };
    assert(read_lines(seq![l2], s2) == s3);
    // localIP
    lemma_quoted_line("localIP"@, m.local_ip);
    lemma_not_prefix(l3, "serverAddr"@, 0);
    lemma_not_prefix(l3, "serverPort"@, 0);
    lemma_not_prefix(l3, "auth.token"@, 0);
    lemma_not_prefix(l3, "user"@, 0);
    lemma_not_prefix(l3, "[[proxies]]"@, 0);
    lemma_not_prefix(l3, "name"@, 0);
    lemma_not_prefix(l3, "type"@, 0);
    lemma_read_one(l3, s3);
    let b4 = MappingView { local_ip: m.local_ip, ..b3 };
    let s4 = ReadState { cfg: flush(st), current: Some(b4), current_name: m.name };
    assert(read_lines(seq![l3], s3) == s4);
    // localPort
    lemma_number_line("localPort"@, m.local_port, 0);
    lemma_not_prefix(l4, "serverAddr"@, 0);
    lemma_not_prefix(l4, "serverPort"@, 0);
    lemma_not_prefix(l4, "auth.token"@, 0);
    lemma_not_prefix(l4, "user"@, 0);
    lemma_not_prefix(l4, "[[proxies]]"@, 0);
    lemma_not_prefix(l4, "name"@, 0);
    lemma_not_prefix(l4, "type"@, 0);
    lemma_not_prefix(l4, "localIP"@, 5);
    lemma_read_one(l4, s4);
    let b5 = MappingView { local_port: m.local_port, ..b4 };
    let s5 = ReadState { cfg: flush(st), current: Some(b5), current_name: m.name };
    assert(read_lines(seq![l4], s4) == s5);
    // remotePort
    lemma_number_line("remotePort"@, m.remote_port, 0);
    lemma_not_prefix(l5, "serverAddr"@, 0);
    lemma_not_prefix(l5, "serverPort"@, 0);
    lemma_not_prefix(l5, "auth.token"@, 0);
    lemma_not_prefix(l5, "user"@, 0);
    lemma_not_prefix(l5, "[[proxies]]"@, 0);
    lemma_not_prefix(l5, "name"@, 0);
    lemma_not_prefix(l5, "type"@, 0);
    lemma_not_prefix(l5, "localIP"@, 0);
    lemma_not_prefix(l5, "localPort"@, 0);
    lemma_read_one(l5, s5);
    let b6 = MappingView { remote_port: m.remote_port, ..b5 };
    assert(read_lines(seq![l5], s5) == ReadState { cfg: flush(st), current: Some(b6), current_name: m.name });
    assert(b6 == fixed_read(m, st).current->0);
}

proof fn lemma_read_extras(m: MappingView, st: ReadState)
    requires
        storable_mapping(m),
    ensures
        read_lines(block_lines(m).subrange(6, block_lines(m).len() as int), fixed_read(m, st))
            == (ReadState { cfg: flush(st), current: Some(m), current_name: m.name }),
{
    reveal_strlit("serverAddr");
    reveal_strlit("serverPort");
    reveal_strlit("auth.token");
    reveal_strlit("user");
    reveal_strlit("[[proxies]]");
    reveal_strlit("name");
    reveal_strlit("type");
    reveal_strlit("localIP");
    reveal_strlit("localPort");
    reveal_strlit("remotePort");
    reveal_strlit("subdomain");
    reveal_strlit("customDomains");
    reveal_strlit("customDomains = [");
    lemma_keys();
    let sd = match m.subdomain {
        Some(v) => seq![qtext("subdomain"@, v)],
        None => Seq::empty(),
    };
    let dl = match m.custom_domains {
        Some(ds) => if ds.len() > 0 {
            seq![domains_line(ds)]
        } else {
            Seq::empty()
        },
        None => Seq::empty(),
    };
    let e = seq![Seq::<char>::empty()];
    assert(block_lines(m).subrange(6, block_lines(m).len() as int) =~= sd + dl + e);
    lemma_read_lines_append(sd + dl, e, fixed_read(m, st));
    lemma_read_lines_append(sd, dl, fixed_read(m, st));
    let f = fixed_read(m, st);
    let b = f.current->0;
    let b1 = MappingView { subdomain: m.subdomain, ..b };
    let s1 = ReadState { cfg: flush(st), current: Some(b1), current_name: m.name };
    match m.subdomain {
        Some(v) => {
            let l = qtext("subdomain"@, v);
            lemma_quoted_line("subdomain"@, v);
            lemma_not_prefix(l, "serverAddr"@, 1);
            lemma_not_prefix(l, "serverPort"@, 1);
            lemma_not_prefix(l, "auth.token"@, 0);
            lemma_not_prefix(l, "user"@, 0);
            lemma_not_prefix(l, "[[proxies]]"@, 0);
            lemma_not_prefix(l, "name"@, 0);
            lemma_not_prefix(l, "type"@, 0);
            lemma_not_prefix(l, "localIP"@, 0);
            lemma_not_prefix(l, "localPort"@, 0);
            lemma_not_prefix(l, "remotePort"@, 0);
            lemma_read_one(l, f);
            assert(read_lines(sd, f) == s1);
        },
        None => {
            assert(b1 == b);
            assert(read_lines(sd, f) == s1);
        },
    }
    let b2 = MappingView { custom_domains: m.custom_domains, ..b1 };
    let s2 = ReadState { cfg: flush(st), current: Some(b2), current_name: m.name };
    match m.custom_domains {
        Some(ds) => {
            let l = domains_line(ds);
            lemma_domains_line(ds);
            lemma_not_prefix(l, "serverAddr"@, 0);
            lemma_not_prefix(l, "serverPort"@, 0);
            lemma_not_prefix(l, "auth.token"@, 0);
            lemma_not_prefix(l, "user"@, 0);
            lemma_not_prefix(l, "[[proxies]]"@, 0);
            lemma_not_prefix(l, "name"@, 0);
            lemma_not_prefix(l, "type"@, 0);
            lemma_not_prefix(l, "localIP"@, 0);
            lemma_not_prefix(l, "localPort"@, 0);
            lemma_not_prefix(l, "remotePort"@, 0);
            lemma_not_prefix(l, "subdomain"@, 0);
            lemma_read_one(l, s1);
            assert(read_lines(dl, s1) == s2);
        },
        None => {
            assert(b2 == b1);
            assert(read_lines(dl, s1) == s2);
        },
    }
    lemma_read_one(Seq::<char>::empty(), s2);
    lemma_step_empty(s2);
    assert(trim(Seq::<char>::empty()) == Seq::<char>::empty());
    assert(b2 == m);
}

/// Reading a written block stores the block that was open and opens this
/// one, whole.
proof fn lemma_read_block(m: MappingView, st: ReadState)
    requires
        storable_mapping(m),
    ensures
        read_lines(block_lines(m), st) == (ReadState {
            cfg: flush(st),
            current: Some(m),
            current_name: m.name,
        }),
{
    let ls = block_lines(m);
    assert(ls =~= ls.subrange(0, 6) + ls.subrange(6, ls.len() as int));
    lemma_read_lines_append(ls.subrange(0, 6), ls.subrange(6, ls.len() as int), st);
    lemma_read_fixed(m, st);
    lemma_read_extras(m, st);
}

/// The reader after the header of `c` and the blocks of `ms`.
pub open spec fn after_blocks(c: ConfigView, ms: Seq<MappingView>) -> ReadState {
    if ms.len() == 0 {
        ReadState {
            cfg: ConfigView { mappings: Seq::empty(), ..c },
            current: None,
            current_name: Seq::empty(),
        }
    } else {
        ReadState {
            cfg: ConfigView { mappings: ms.drop_last(), ..c },
            current: Some(ms.last()),
            current_name: ms.last().name,
        }
    }
}

proof fn lemma_flush_after(c: ConfigView, ms: Seq<MappingView>)
    requires
        names_unique(ms),
    ensures
        flush(after_blocks(c, ms)) == (ConfigView { mappings: ms, ..c }),
{
    if ms.len() == 0 {
        assert(ms =~= Seq::<MappingView>::empty());
    } else {
        let p = ms.drop_last();
        let m = ms.last();
        assert(MappingView { name: m.name, ..m } == m);
        if has_name(p, m.name) {
            let i = choose|i: int| 0 <= i < p.len() && #[trigger] p[i].name == m.name;
            assert(ms[i].name == ms[ms.len() - 1].name);
        }
        assert(upsert(p, m) == p.push(m));
        assert(p.push(m) =~= ms);
    }
}

proof fn lemma_read_blocks(c: ConfigView, ms: Seq<MappingView>)
    requires
        names_unique(ms),
        forall|k: int| 0 <= k < ms.len() ==> storable_mapping(#[trigger] ms[k]),
    ensures
        read_lines(blocks_lines(ms), after_blocks(c, Seq::empty())) == after_blocks(c, ms),
    decreases ms.len(),
{
    if ms.len() > 0 {
        let p = ms.drop_last();
        assert(names_unique(p)) by {
            assert forall|i: int, j: int|
                0 <= i < p.len() && 0 <= j < p.len() && i != j implies #[trigger] p[i].name
                != #[trigger] p[j].name by {
                assert(p[i] == ms[i] && p[j] == ms[j]);
            }
        }
        assert forall|k: int| 0 <= k < p.len() implies storable_mapping(#[trigger] p[k]) by {
            assert(p[k] == ms[k]);
        }
        lemma_read_blocks(c, p);
        lemma_read_lines_append(blocks_lines(p), block_lines(ms.last()), after_blocks(c, Seq::empty()));
        assert(storable_mapping(ms[ms.len() - 1]));
        lemma_read_block(ms.last(), after_blocks(c, p));
        lemma_flush_after(c, p);
        assert(ConfigView { mappings: p, ..c } == after_blocks(c, ms).cfg);
    } else {
        assert(ms =~= Seq::<MappingView>::empty());
    }
}

proof fn lemma_block_no_break(m: MappingView)
    requires
        storable_mapping(m),
    ensures
        forall|k: int| 0 <= k < block_lines(m).len() ==> no_break(#[trigger] block_lines(m)[k]),
{
    reveal_strlit("[[proxies]]");
    lemma_keys();
    lemma_quoted_line("name"@, m.name);
    lemma_quoted_line("type"@, m.protocol);
    lemma_quoted_line("localIP"@, m.local_ip);
    lemma_number_line("localPort"@, m.local_port, 0);
    lemma_number_line("remotePort"@, m.remote_port, 0);
    match m.subdomain {
        Some(v) => lemma_quoted_line("subdomain"@, v),
        None => {},
    }
    match m.custom_domains {
        Some(ds) => lemma_domains_line(ds),
        None => {},
    }
    let l0 = "[[proxies]]"@;
    assert(no_break(l0));
    assert(no_break(Seq::<char>::empty()));
}

proof fn lemma_blocks_no_break(ms: Seq<MappingView>)
    requires
        forall|k: int| 0 <= k < ms.len() ==> storable_mapping(#[trigger] ms[k]),
    ensures
        forall|k: int| 0 <= k < blocks_lines(ms).len() ==> no_break(#[trigger] blocks_lines(ms)[k]),
    decreases ms.len(),
{
    if ms.len() > 0 {
        let p = ms.drop_last();
        assert forall|k: int| 0 <= k < p.len() implies storable_mapping(#[trigger] p[k]) by {
            assert(p[k] == ms[k]);
        }
        lemma_blocks_no_break(p);
        assert(storable_mapping(ms[ms.len() - 1]));
        lemma_block_no_break(ms.last());
        let a = blocks_lines(p);
        let b = block_lines(ms.last());
        assert forall|k: int| 0 <= k < (a + b).len() implies no_break(#[trigger] (a + b)[k]) by {
            if k < a.len() {
                assert((a + b)[k] == a[k]);
            } else {
                assert((a + b)[k] == b[k - a.len()]);
            }
        }
    }
}

/// A configuration whose values the text format carries unchanged: values
/// with no `=`, no line break and no double quote at either end, unique
/// mapping names, no empty domain list, and domains that are not empty and
/// hold no comma.
pub open spec fn storable(c: ConfigView) -> bool {
    &&& plain(c.server_addr)
    &&& plain(c.token)
    &&& plain(c.user)
    &&& names_unique(c.mappings)
    &&& forall|k: int| 0 <= k < c.mappings.len() ==> storable_mapping(#[trigger] c.mappings[k])
}

/// Reading back the text that stores `c` gives `c` again, every field and
/// every mapping in order; so saving what was loaded from a save writes the
/// same text again.
pub proof fn lemma_round_trip(c: ConfigView)
    requires
        storable(c),
    ensures
        parse_text(config_text(c)) == c,
        config_text(parse_text(config_text(c))) == config_text(c),
{
    let hl = header_lines(c);
    let bl = blocks_lines(c.mappings);
    let all = hl + bl;
    lemma_join_append(hl, bl);
    lemma_header_join(c);
    lemma_blocks_join(c.mappings);
    assert(join(all) == config_text(c));
    lemma_keys();
    lemma_quoted_line("serverAddr"@, c.server_addr);
    lemma_number_line("serverPort"@, c.server_port, 0);
    lemma_quoted_line("auth.token"@, c.token);
    lemma_quoted_line("user"@, c.user);
    assert(no_break(Seq::<char>::empty()));
    assert forall|k: int| 0 <= k < hl.len() implies no_break(#[trigger] hl[k]) by {
    }
    lemma_blocks_no_break(c.mappings);
    assert forall|k: int| 0 <= k < all.len() implies no_break(#[trigger] all[k]) by {
        if k < hl.len() {
            assert(all[k] == hl[k]);
        } else {
            assert(all[k] == bl[k - hl.len()]);
        }
    }
    let e = Seq::<char>::empty();
    lemma_read_join(all, e, crate::format::initial_state());
    assert(join(all) + e =~= join(all));
    let st = read_lines(all, crate::format::initial_state());
    assert(find_char(e, '\n', 0) == 0);
    assert(e.subrange(0, 0) =~= e);
    assert(trim(e) == e);
    lemma_step_empty(st);
    assert(read_from(e, 0, st) == st);
    lemma_read_lines_append(hl, bl, crate::format::initial_state());
    lemma_read_header(c);
    lemma_read_blocks(c, c.mappings);
    lemma_flush_after(c, c.mappings);
    assert(parse_text(config_text(c)) == c);
}

} // verus!
