//! The `frpc.toml` configuration: writing it from the quick form, summarising
//! it, and narrowing it to one proxy.

use vstd::prelude::*;
use vstd::string::StringExecFns;

use crate::decimal;
use crate::error::AppError;
use crate::text;
use crate::toml_doc;
use crate::toml_doc::Toml;

verus! {

/// One proxy of the quick form.
pub struct QuickProxyRequest {
    pub name: String,
    pub proxy_type: String,
    pub local_ip: String,
    pub local_port: u16,
    pub remote_port: u16,
}

/// The quick form.
pub struct SaveQuickConfigRequest {
    pub server_addr: String,
    pub server_port: u16,
    pub auth_method: String,
    pub auth_token: String,
    pub proxies: Vec<QuickProxyRequest>,
}

/// One proxy of the quick form, by its texts.
pub struct QuickProxyView {
    pub name: Seq<char>,
    pub proxy_type: Seq<char>,
    pub local_ip: Seq<char>,
    pub local_port: u16,
    pub remote_port: u16,
}

/// The quick form, by its texts.
pub struct QuickConfigView {
    pub server_addr: Seq<char>,
    pub server_port: u16,
    pub auth_method: Seq<char>,
    pub auth_token: Seq<char>,
    pub proxies: Seq<QuickProxyView>,
}

impl View for QuickProxyRequest {
    type V = QuickProxyView;

    open spec fn view(&self) -> QuickProxyView {
        QuickProxyView {
            name: self.name@,
            proxy_type: self.proxy_type@,
            local_ip: self.local_ip@,
            local_port: self.local_port,
            remote_port: self.remote_port,
        }
    }
}

impl View for SaveQuickConfigRequest {
    type V = QuickConfigView;

    open spec fn view(&self) -> QuickConfigView {
        QuickConfigView {
            server_addr: self.server_addr@,
            server_port: self.server_port,
            auth_method: self.auth_method@,
            auth_token: self.auth_token@,
            proxies: self.proxies@.map_values(|p: QuickProxyRequest| p@),
        }
    }
}

/// A form is seen with the texts and numbers of its own fields.
pub proof fn law_forms_are_seen_as_they_are(request: SaveQuickConfigRequest, i: int)
    ensures
        request@.server_addr == request.server_addr@,
        request@.server_port == request.server_port,
        request@.auth_method == request.auth_method@,
        request@.auth_token == request.auth_token@,
        request@.proxies.len() == request.proxies@.len(),
        0 <= i < request.proxies@.len() ==> {
            let p = request.proxies@[i];
            &&& request@.proxies[i].name == p.name@
            &&& request@.proxies[i].proxy_type == p.proxy_type@
            &&& request@.proxies[i].local_ip == p.local_ip@
            &&& request@.proxies[i].local_port == p.local_port
            &&& request@.proxies[i].remote_port == p.remote_port
        },
{
}

/// A text as it stands between the quotes of a TOML basic string.
pub open spec fn escaped(s: Seq<char>) -> Seq<char> {
    text::replaced(text::replaced(s, '\\', seq!['\\', '\\']), '"', seq!['\\', '"'])
}

/// The section of one proxy.
pub open spec fn proxy_section(p: QuickProxyView) -> Seq<char> {
    "[[proxies]]\nname = \""@ + escaped(p.name) + "\"\ntype = \""@ + escaped(p.proxy_type)
        + "\"\nlocalIP = \""@ + escaped(p.local_ip) + "\"\nlocalPort = "@ + decimal::decimal(
        p.local_port as nat,
    ) + "\nremotePort = "@ + decimal::decimal(p.remote_port as nat) + "\n\n"@
}

/// The sections of several proxies, one after the other.
pub open spec fn proxy_sections(proxies: Seq<QuickProxyView>) -> Seq<char>
    decreases proxies.len(),
{
    if proxies.len() == 0 {
        Seq::empty()
    } else {
        proxy_sections(proxies.drop_last()) + proxy_section(proxies.last())
    }
}

/// The document that the quick form stands for.
pub open spec fn quick_text(q: QuickConfigView) -> Seq<char> {
    "serverAddr = \""@ + escaped(q.server_addr) + "\"\nserverPort = "@ + decimal::decimal(
        q.server_port as nat,
    ) + "\n\nauth.method = \""@ + escaped(q.auth_method) + "\"\nauth.token = \""@ + escaped(
        q.auth_token,
    ) + "\"\n\n"@ + proxy_sections(q.proxies)
}

/// A text that may stand in a TOML basic string once it is escaped: without
/// control characters other than the tab.
pub open spec fn printable(s: Seq<char>) -> bool {
    forall|i: int| 0 <= i < s.len() ==> (#[trigger] s[i] == '\t' || (s[i] >= ' ' && s[i] != '\u{7f}'))
}

/// A form all of whose texts are printable.
pub open spec fn readable(q: QuickConfigView) -> bool {
    &&& printable(q.server_addr)
    &&& printable(q.auth_method)
    &&& printable(q.auth_token)
    &&& forall|i: int|
        0 <= i < q.proxies.len() ==> printable((#[trigger] q.proxies[i]).name) && printable(
            q.proxies[i].proxy_type,
        ) && printable(q.proxies[i].local_ip)
}

/// The entries of one proxy's section.
pub open spec fn proxy_contents(p: QuickProxyView) -> Toml {
    Toml::Table(
        map![
            "name"@ => Toml::Text(p.name),
            "type"@ => Toml::Text(p.proxy_type),
            "localIP"@ => Toml::Text(p.local_ip),
            "localPort"@ => Toml::Integer(p.local_port as i64),
            "remotePort"@ => Toml::Integer(p.remote_port as i64),
        ],
    )
}

/// The entries of the document that the quick form stands for.
pub open spec fn quick_contents(q: QuickConfigView) -> Toml {
    let base = map![
        "serverAddr"@ => Toml::Text(q.server_addr),
        "serverPort"@ => Toml::Integer(q.server_port as i64),
        "auth"@ => Toml::Table(
            map![
                "method"@ => Toml::Text(q.auth_method),
                "token"@ => Toml::Text(q.auth_token),
            ],
        ),
    ];
    if q.proxies.len() == 0 {
        Toml::Table(base)
    } else {
        Toml::Table(
            base.insert(
                "proxies"@,
                Toml::Array(q.proxies.map_values(|p: QuickProxyView| proxy_contents(p))),
            ),
        )
    }
}

/// The summary that shows the entries of the quick form.
pub open spec fn quick_summary(q: QuickConfigView) -> ConfigSummaryView {
    ConfigSummaryView {
        server_addr: q.server_addr,
        server_port: Some(q.server_port),
        auth_method: q.auth_method,
        auth_token: q.auth_token,
        proxies: q.proxies.map_values(
            |p: QuickProxyView|
                ProxySummaryView {
                    name: p.name,
                    proxy_type: p.proxy_type,
                    local_ip: p.local_ip,
                    local_port: Some(p.local_port),
                    remote_port: Some(p.remote_port),
                },
        ),
    }
}

/// A text with its backslashes and quotes escaped for a TOML basic string.
pub fn escape_toml_string(value: &str) -> (out: String)
    ensures
        out@ == escaped(value@),
{
    proof {
        reveal_strlit("\\\\");
        reveal_strlit("\\\"");
        assert("\\\\"@ =~= seq!['\\', '\\']);
        assert("\\\""@ =~= seq!['\\', '"']);
    }
    let slashes = text::replace_char(value, '\\', "\\\\");
    text::replace_char(slashes.as_str(), '"', "\\\"")
}

/// How a TOML basic string is read: a backslash stands for the character that
/// follows it.
pub open spec fn unescaped(s: Seq<char>) -> Seq<char>
    decreases s.len(),
{
    if s.len() == 0 {
        Seq::empty()
    } else if s[0] == '\\' && s.len() >= 2 {
        seq![s[1]] + unescaped(s.skip(2))
    } else {
        seq![s[0]] + unescaped(s.drop_first())
    }
}

/// Whether a quote in the text would close the TOML basic string that it stands in.
pub open spec fn closes_string(s: Seq<char>) -> bool
    decreases s.len(),
{
    if s.len() == 0 {
        false
    } else if s[0] == '\\' {
        s.len() >= 2 && closes_string(s.skip(2))
    } else {
        s[0] == '"' || closes_string(s.drop_first())
    }
}

proof fn lemma_escaped_split(ch: char, rest: Seq<char>)
    ensures
        escaped(seq![ch] + rest) == (if ch == '\\' || ch == '"' {
            seq!['\\', ch]
        } else {
            seq![ch]
        }) + escaped(rest),
{
    let slashes = seq!['\\', '\\'];
    let quotes = seq!['\\', '"'];
    text::lemma_replaced_concat(seq![ch], rest, '\\', slashes);
    text::lemma_replaced_one(ch, '\\', slashes);
    let head = text::replaced(seq![ch], '\\', slashes);
    text::lemma_replaced_concat(head, text::replaced(rest, '\\', slashes), '"', quotes);
    if ch == '\\' {
        assert(head =~= seq!['\\'] + seq!['\\']);
        text::lemma_replaced_concat(seq!['\\'], seq!['\\'], '"', quotes);
        text::lemma_replaced_one('\\', '"', quotes);
        assert(text::replaced(head, '"', quotes) =~= seq!['\\', '\\']);
    } else {
        text::lemma_replaced_one(ch, '"', quotes);
    }
}

/// A backslash is put before each backslash and each quote, and every other
/// character stays as it is.
pub proof fn law_only_backslashes_and_quotes_are_escaped(ch: char, rest: Seq<char>)
    ensures
        escaped(Seq::<char>::empty()).len() == 0,
        ch == '\\' || ch == '"' ==> escaped(seq![ch] + rest) == seq!['\\', ch] + escaped(rest),
        ch != '\\' && ch != '"' ==> escaped(seq![ch] + rest) == seq![ch] + escaped(rest),
{
    lemma_escaped_split(ch, rest);
}

/// A text escaped for a TOML basic string is read back as it was, and no quote
/// in it closes the string.
pub proof fn law_escaped_text_reads_back(s: Seq<char>)
    ensures
        unescaped(escaped(s)) == s,
        !closes_string(escaped(s)),
    decreases s.len(),
{
    if s.len() == 0 {
        assert(escaped(s) =~= Seq::<char>::empty());
        assert(unescaped(escaped(s)) =~= s);
    } else {
        let rest = s.drop_first();
        law_escaped_text_reads_back(rest);
        assert(s =~= seq![s[0]] + rest);
        lemma_escaped_split(s[0], rest);
        let e = escaped(s);
        if s[0] == '\\' || s[0] == '"' {
            assert(e.skip(2) =~= escaped(rest));
            assert(e[1] == s[0]);
        } else {
            assert(e.drop_first() =~= escaped(rest));
        }
        assert(unescaped(e) =~= s);
    }
}

fn append_proxy_section(out: &mut String, proxy: &QuickProxyRequest)
    ensures
        final(out)@ == old(out)@ + proxy_section(proxy@),
{
    let ghost before = out@;
    out.append("[[proxies]]\nname = \"");
    out.append(escape_toml_string(proxy.name.as_str()).as_str());
    out.append("\"\ntype = \"");
    out.append(escape_toml_string(proxy.proxy_type.as_str()).as_str());
    out.append("\"\nlocalIP = \"");
    out.append(escape_toml_string(proxy.local_ip.as_str()).as_str());
    out.append("\"\nlocalPort = ");
    decimal::append_number(out, proxy.local_port as u64);
    out.append("\nremotePort = ");
    decimal::append_number(out, proxy.remote_port as u64);
    out.append("\n\n");
    assert(out@ =~= before + proxy_section(proxy@));
}

/// The document that the quick form stands for.
pub fn render_quick_config(request: &SaveQuickConfigRequest) -> (out: String)
    ensures
        out@ == quick_text(request@),
{
    let mut out: String = "serverAddr = \"".to_owned();
    out.append(escape_toml_string(request.server_addr.as_str()).as_str());
    out.append("\"\nserverPort = ");
    decimal::append_number(&mut out, request.server_port as u64);
    out.append("\n\nauth.method = \"");
    out.append(escape_toml_string(request.auth_method.as_str()).as_str());
    out.append("\"\nauth.token = \"");
    out.append(escape_toml_string(request.auth_token.as_str()).as_str());
    out.append("\"\n\n");
    let ghost head = out@;
    let ghost all = request@.proxies;
    assert(head + proxy_sections(all.take(0)) =~= head);
    let mut i: usize = 0;
    while i < request.proxies.len()
        invariant
            i <= request.proxies@.len(),
            all == request@.proxies,
            out@ == head + proxy_sections(all.take(i as int)),
        decreases request.proxies@.len() - i,
    {
        append_proxy_section(&mut out, &request.proxies[i]);
        assert(all.take(i + 1).drop_last() =~= all.take(i as int));
        assert(all[i as int] == request.proxies@[i as int]@);
        assert(out@ =~= head + proxy_sections(all.take(i + 1)));
        i = i + 1;
    }
    assert(all.take(i as int) =~= all);
    assert(out@ =~= quick_text(request@));
    out
}

/// A text on one line.
pub open spec fn one_line(s: Seq<char>) -> bool {
    !s.contains('\n')
}

proof fn lemma_replaced_one_line(s: Seq<char>, from: char, to: Seq<char>)
    requires
        one_line(s),
        one_line(to),
    ensures
        one_line(text::replaced(s, from, to)),
    decreases s.len(),
{
    let out = text::replaced(s, from, to);
    if s.len() > 0 {
        let init = s.drop_last();
        assert forall|i: int| 0 <= i < init.len() implies init[i] != '\n' by {
            assert(s[i] == init[i]);
        }
        lemma_replaced_one_line(init, from, to);
        let head = text::replaced(init, from, to);
        assert(s[s.len() - 1] == s.last());
        assert forall|i: int| 0 <= i < out.len() implies out[i] != '\n' by {
            if i < head.len() {
                assert(head.contains(head[i]));
            } else if s.last() == from {
                assert(to.contains(to[i - head.len()]));
            }
        }
    }
}

proof fn lemma_escaped_one_line(s: Seq<char>)
    requires
        one_line(s),
    ensures
        one_line(escaped(s)),
{
    lemma_replaced_one_line(s, '\\', seq!['\\', '\\']);
    lemma_replaced_one_line(
        text::replaced(s, '\\', seq!['\\', '\\']),
        '"',
        seq!['\\', '"'],
    );
}

proof fn lemma_joined_one_line(a: Seq<char>, b: Seq<char>)
    requires
        one_line(a),
        one_line(b),
    ensures
        one_line(a + b),
{
    assert forall|i: int| 0 <= i < (a + b).len() implies (a + b)[i] != '\n' by {
        if i < a.len() {
            assert(a.contains(a[i]));
        } else {
            assert(b.contains(b[i - a.len()]));
        }
    }
}

/// One more line makes one more piece.
proof fn lemma_line(t: Seq<char>, line: Seq<char>)
    requires
        t.len() == 0 || t.last() == '\n',
        one_line(line),
    ensures
        text::pieces(t + line + seq!['\n'], '\n') == text::pieces(t, '\n').drop_last().push(
            line,
        ).push(Seq::empty()),
        (t + line + seq!['\n']).last() == '\n',
{
    let whole = t + line + seq!['\n'];
    assert(whole.drop_last() =~= t + line);
    if t.len() == 0 {
        assert(t + line =~= line);
        text::lemma_one_piece(line, '\n');
        assert(text::pieces(t, '\n').drop_last().push(line) =~= seq![line]);
    } else {
        let init = t.drop_last();
        assert(t =~= init.push('\n'));
        text::lemma_last_piece(init, line, '\n');
        assert(text::pieces(t, '\n').drop_last() =~= text::pieces(init, '\n'));
    }
}

/// A key with a text in quotes, or with a number.
spec fn quoted_entry(key: Seq<char>, value: Seq<char>) -> Seq<char> {
    key + " = \""@ + escaped(value) + "\""@
}

proof fn lemma_quoted_entry(key: Seq<char>, value: Seq<char>)
    requires
        one_line(key),
        one_line(value),
    ensures
        one_line(quoted_entry(key, value)),
{
    reveal_strlit(" = \"");
    reveal_strlit("\"");
    lemma_escaped_one_line(value);
    lemma_joined_one_line(key, " = \""@);
    lemma_joined_one_line(key + " = \""@, escaped(value));
    lemma_joined_one_line(key + " = \""@ + escaped(value), "\""@);
}

proof fn lemma_number_entry(key: Seq<char>, n: nat)
    requires
        one_line(key),
    ensures
        one_line(key + decimal::decimal(n)),
{
    decimal::lemma_decimal_digits(n);
    assert forall|i: int| 0 <= i < decimal::decimal(n).len() implies decimal::decimal(n)[i]
        != '\n' by {}
    lemma_joined_one_line(key, decimal::decimal(n));
}

/// The texts of a proxy stand on one line each.
pub open spec fn proxy_on_lines(p: QuickProxyView) -> bool {
    one_line(p.name) && one_line(p.proxy_type) && one_line(p.local_ip)
}

/// The texts of a form stand on one line each.
pub open spec fn form_on_lines(q: QuickConfigView) -> bool {
    &&& one_line(q.server_addr)
    &&& one_line(q.auth_method)
    &&& one_line(q.auth_token)
    &&& forall|i: int| 0 <= i < q.proxies.len() ==> proxy_on_lines(#[trigger] q.proxies[i])
}

/// The entries of the head of a form, by their lines.
spec fn head_entries(q: QuickConfigView) -> Seq<Seq<char>> {
    seq![
        quoted_entry("serverAddr"@, q.server_addr),
        "serverPort = "@ + decimal::decimal(q.server_port as nat),
        Seq::empty(),
        quoted_entry("auth.method"@, q.auth_method),
        quoted_entry("auth.token"@, q.auth_token),
        Seq::empty(),
    ]
}

proof fn lemma_head_text(q: QuickConfigView, head: Seq<char>)
    requires
        head == quick_text((QuickConfigView { proxies: Seq::empty(), ..q })),
    ensures
        ({
            let l = head_entries(q);
            let end = seq!['\n'];
            head == l[0] + end + l[1] + end + l[2] + end + l[3] + end + l[4] + end + l[5] + end
        }),
{
    let end = seq!['\n'];
    let none = Seq::<char>::empty();
    let quote = "\""@;
    let addr = "serverAddr"@ + " = \""@;
    let port = "serverPort = "@;
    let method = "auth.method"@ + " = \""@;
    let token = "auth.token"@ + " = \""@;
    assert("serverAddr = \""@ == none + addr) by {
        reveal_strlit("serverAddr = \"");
        reveal_strlit("serverAddr");
        reveal_strlit(" = \"");
    }
    assert("\"\nserverPort = "@ == quote + end + port) by {
        reveal_strlit("\"\nserverPort = ");
        reveal_strlit("\"");
        reveal_strlit("serverPort = ");
    }
    assert("\n\nauth.method = \""@ == none + end + (end + method)) by {
        reveal_strlit("\n\nauth.method = \"");
        reveal_strlit("auth.method");
        reveal_strlit(" = \"");
    }
    assert("\"\nauth.token = \""@ == quote + end + token) by {
        reveal_strlit("\"\nauth.token = \"");
        reveal_strlit("\"");
        reveal_strlit("auth.token");
        reveal_strlit(" = \"");
    }
    assert("\"\n\n"@ == quote + end + end) by {
        reveal_strlit("\"\n\n");
        reveal_strlit("\"");
    }
    let l = head_entries(q);
    let d = decimal::decimal(q.server_port as nat);
    let h2 = none + l[0] + end;
    let h3 = h2 + l[1] + end;
    let h4 = h3 + end;
    let h5 = h4 + l[3] + end;
    assert(port + d + none =~= l[1]);
    lemma_next_line(none, addr, escaped(q.server_addr), quote, end, port);
    lemma_next_line(h2, port, d, none, end, end + method);
    assert(h3 + (end + method) =~= h4 + method);
    lemma_next_line(h4, method, escaped(q.auth_method), quote, end, token);
    lemma_next_line(h5, token, escaped(q.auth_token), quote, end, end);
    assert(none + l[0] =~= l[0]);
    assert(h3 + none =~= h3);
    assert(h5 + l[4] + end + none =~= h5 + l[4] + end);
    let sections = proxy_sections(Seq::<QuickProxyView>::empty());
    assert(sections =~= none);
    assert(h5 + l[4] + end + end + none =~= h5 + l[4] + end + end);
}

proof fn lemma_head_lines(q: QuickConfigView, head: Seq<char>)
    requires
        form_on_lines(q),
        head == quick_text((QuickConfigView { proxies: Seq::empty(), ..q })),
    ensures
        head.len() > 0,
        head.last() == '\n',
        text::pieces(head, '\n') == head_entries(q).push(Seq::empty()),
{
    let l = head_entries(q);
    let end = seq!['\n'];
    let blank = Seq::<char>::empty();
    assert(one_line("serverAddr"@) && one_line("serverPort = "@) && one_line("auth.method"@)
        && one_line("auth.token"@)) by {
        reveal_strlit("serverAddr");
        reveal_strlit("serverPort = ");
        reveal_strlit("auth.method");
        reveal_strlit("auth.token");
    }
    lemma_quoted_entry("serverAddr"@, q.server_addr);
    lemma_number_entry("serverPort = "@, q.server_port as nat);
    lemma_quoted_entry("auth.method"@, q.auth_method);
    lemma_quoted_entry("auth.token"@, q.auth_token);
    lemma_head_text(q, head);
    let t1 = blank + l[0] + end;
    let t2 = t1 + l[1] + end;
    let t3 = t2 + blank + end;
    let t4 = t3 + l[3] + end;
    let t5 = t4 + l[4] + end;
    let t6 = t5 + blank + end;
    assert(text::pieces(blank, '\n').drop_last() =~= Seq::<Seq<char>>::empty());
    lemma_line(blank, l[0]);
    assert(text::pieces(t1, '\n').drop_last() =~= l.take(1));
    lemma_line(t1, l[1]);
    assert(text::pieces(t2, '\n').drop_last() =~= l.take(2));
    lemma_line(t2, blank);
    assert(text::pieces(t3, '\n').drop_last() =~= l.take(3));
    lemma_line(t3, l[3]);
    assert(text::pieces(t4, '\n').drop_last() =~= l.take(4));
    lemma_line(t4, l[4]);
    assert(text::pieces(t5, '\n').drop_last() =~= l.take(5));
    lemma_line(t5, blank);
    assert(text::pieces(t6, '\n') =~= l.push(blank));
    assert(blank + l[0] =~= l[0]);
    assert(head == t6);
}

proof fn lemma_seven_lines(
    t: Seq<char>,
    o: Seq<char>,
    a: Seq<char>,
    b: Seq<char>,
    c: Seq<char>,
    d: Seq<char>,
    e: Seq<char>,
)
    requires
        t.len() > 0,
        t.last() == '\n',
        one_line(o),
        one_line(a),
        one_line(b),
        one_line(c),
        one_line(d),
        one_line(e),
    ensures
        ({
            let end = seq!['\n'];
            let added = o + end + a + end + b + end + c + end + d + end + e + end + end;
            &&& (t + added).last() == '\n'
            &&& text::pieces(t + added, '\n') == text::pieces(t, '\n').drop_last().push(o).push(
                a,
            ).push(b).push(c).push(d).push(e).push(Seq::empty()).push(Seq::empty())
        }),
{
    let blank = Seq::<char>::empty();
    let end = seq!['\n'];
    let added = o + end + a + end + b + end + c + end + d + end + e + end + end;
    let t0 = t + o + end;
    let t1 = t0 + a + end;
    let t2 = t1 + b + end;
    let t3 = t2 + c + end;
    let t4 = t3 + d + end;
    let t5 = t4 + e + end;
    let t6 = t5 + blank + end;
    let lines = text::pieces(t, '\n').drop_last();
    lemma_line(t, o);
    lemma_line(t0, a);
    assert(text::pieces(t0, '\n').drop_last() =~= lines.push(o));
    lemma_line(t1, b);
    assert(text::pieces(t1, '\n').drop_last() =~= lines.push(o).push(a));
    lemma_line(t2, c);
    assert(text::pieces(t2, '\n').drop_last() =~= lines.push(o).push(a).push(b));
    lemma_line(t3, d);
    assert(text::pieces(t3, '\n').drop_last() =~= lines.push(o).push(a).push(b).push(c));
    lemma_line(t4, e);
    assert(text::pieces(t4, '\n').drop_last() =~= lines.push(o).push(a).push(b).push(c).push(d));
    lemma_line(t5, blank);
    assert(text::pieces(t5, '\n').drop_last() =~= lines.push(o).push(a).push(b).push(c).push(
        d,
    ).push(e));
    assert(t + added =~= t6);
}

/// The entries of a proxy's section, by their lines.
spec fn section_entries(p: QuickProxyView) -> Seq<Seq<char>> {
    seq![
        "[[proxies]]"@,
        quoted_entry("name"@, p.name),
        quoted_entry("type"@, p.proxy_type),
        quoted_entry("localIP"@, p.local_ip),
        "localPort = "@ + decimal::decimal(p.local_port as nat),
        "remotePort = "@ + decimal::decimal(p.remote_port as nat),
    ]
}

/// What closes one line and opens the next belongs to both.
proof fn lemma_next_line(
    head: Seq<char>,
    opening: Seq<char>,
    value: Seq<char>,
    closing: Seq<char>,
    end: Seq<char>,
    next: Seq<char>,
)
    ensures
        head + opening + value + (closing + end + next) == head + (opening + value + closing) + end
            + next,
{
    assert(head + opening + value + (closing + end + next) =~= head + (opening + value + closing)
        + end + next);
}

proof fn lemma_section_text(p: QuickProxyView)
    ensures
        ({
            let l = section_entries(p);
            let end = seq!['\n'];
            proxy_section(p) == l[0] + end + l[1] + end + l[2] + end + l[3] + end + l[4] + end + l[5]
                + end + end
        }),
{
    let end = seq!['\n'];
    let none = Seq::<char>::empty();
    let quote = "\""@;
    let name = "name"@ + " = \""@;
    let kind = "type"@ + " = \""@;
    let ip = "localIP"@ + " = \""@;
    let local = "localPort = "@;
    let remote = "remotePort = "@;
    assert("[[proxies]]\nname = \""@ == "[[proxies]]"@ + end + name) by {
        reveal_strlit("[[proxies]]\nname = \"");
        reveal_strlit("[[proxies]]");
        reveal_strlit("name");
        reveal_strlit(" = \"");
    }
    assert("\"\ntype = \""@ == quote + end + kind) by {
        reveal_strlit("\"\ntype = \"");
        reveal_strlit("\"");
        reveal_strlit("type");
        reveal_strlit(" = \"");
    }
    assert("\"\nlocalIP = \""@ == quote + end + ip) by {
        reveal_strlit("\"\nlocalIP = \"");
        reveal_strlit("\"");
        reveal_strlit("localIP");
        reveal_strlit(" = \"");
    }
    assert("\"\nlocalPort = "@ == quote + end + local) by {
        reveal_strlit("\"\nlocalPort = ");
        reveal_strlit("\"");
        reveal_strlit("localPort = ");
    }
    assert("\nremotePort = "@ == none + end + remote) by {
        reveal_strlit("\nremotePort = ");
        reveal_strlit("remotePort = ");
    }
    assert("\n\n"@ == none + end + end) by {
        reveal_strlit("\n\n");
    }
    let l = section_entries(p);
    let d = decimal::decimal(p.local_port as nat);
    let e = decimal::decimal(p.remote_port as nat);
    let h1 = l[0] + end;
    let h2 = h1 + l[1] + end;
    let h3 = h2 + l[2] + end;
    let h4 = h3 + l[3] + end;
    let h5 = h4 + l[4] + end;
    assert(local + d + none =~= l[4]);
    assert(remote + e + none =~= l[5]);
    lemma_next_line(h1, name, escaped(p.name), quote, end, kind);
    lemma_next_line(h2, kind, escaped(p.proxy_type), quote, end, ip);
    lemma_next_line(h3, ip, escaped(p.local_ip), quote, end, local);
    lemma_next_line(h4, local, d, none, end, remote);
    lemma_next_line(h5, remote, e, none, end, end);
}

proof fn lemma_section_lines(t: Seq<char>, p: QuickProxyView)
    requires
        t.len() > 0,
        t.last() == '\n',
        proxy_on_lines(p),
    ensures
        (t + proxy_section(p)).last() == '\n',
        text::pieces(t + proxy_section(p), '\n') == text::pieces(t, '\n').drop_last()
            + section_entries(p) + seq![Seq::<char>::empty(), Seq::<char>::empty()],
{
    let l = section_entries(p);
    assert(one_line(l[0]) && one_line("name"@) && one_line("type"@) && one_line("localIP"@)
        && one_line("localPort = "@) && one_line("remotePort = "@)) by {
        reveal_strlit("[[proxies]]");
        reveal_strlit("name");
        reveal_strlit("type");
        reveal_strlit("localIP");
        reveal_strlit("localPort = ");
        reveal_strlit("remotePort = ");
    }
    lemma_quoted_entry("name"@, p.name);
    lemma_quoted_entry("type"@, p.proxy_type);
    lemma_quoted_entry("localIP"@, p.local_ip);
    lemma_number_entry("localPort = "@, p.local_port as nat);
    lemma_number_entry("remotePort = "@, p.remote_port as nat);
    lemma_section_text(p);
    lemma_seven_lines(t, l[0], l[1], l[2], l[3], l[4], l[5]);
    assert(text::pieces(t + proxy_section(p), '\n') =~= text::pieces(t, '\n').drop_last() + l
        + seq![Seq::<char>::empty(), Seq::<char>::empty()]);
}

/// The lines from the given place on are the section of a proxy.
spec fn shows_section(lines: Seq<Seq<char>>, at: int, p: QuickProxyView) -> bool {
    lines.subrange(at, at + 6) == section_entries(p) && lines[at + 6].len() == 0
}

/// The first lines are the head of the form.
spec fn shows_head(lines: Seq<Seq<char>>, q: QuickConfigView) -> bool {
    lines.take(6) == head_entries(q)
}

proof fn lemma_head_shown(lines: Seq<Seq<char>>, q: QuickConfigView)
    requires
        lines.len() >= 6,
        shows_head(lines, q),
    ensures
        lines[0] == "serverAddr = \""@ + escaped(q.server_addr) + "\""@,
        lines[1] == "serverPort = "@ + decimal::decimal(q.server_port as nat),
        lines[2].len() == 0,
        lines[3] == "auth.method = \""@ + escaped(q.auth_method) + "\""@,
        lines[4] == "auth.token = \""@ + escaped(q.auth_token) + "\""@,
        lines[5].len() == 0,
{
    let l = lines.take(6);
    assert(l[0] == lines[0] && l[1] == lines[1] && l[2] == lines[2] && l[3] == lines[3] && l[4]
        == lines[4] && l[5] == lines[5]);
    assert("serverAddr"@ + " = \""@ == "serverAddr = \""@) by {
        reveal_strlit("serverAddr = \"");
        reveal_strlit("serverAddr");
        reveal_strlit(" = \"");
    }
    assert("auth.method"@ + " = \""@ == "auth.method = \""@) by {
        reveal_strlit("auth.method = \"");
        reveal_strlit("auth.method");
        reveal_strlit(" = \"");
    }
    assert("auth.token"@ + " = \""@ == "auth.token = \""@) by {
        reveal_strlit("auth.token = \"");
        reveal_strlit("auth.token");
        reveal_strlit(" = \"");
    }
}

proof fn lemma_form_lines(q: QuickConfigView, n: nat)
    requires
        form_on_lines(q),
        n <= q.proxies.len(),
    ensures
        ({
            let t = quick_text((QuickConfigView { proxies: q.proxies.take(n as int), ..q }));
            let lines = text::pieces(t, '\n');
            &&& t.len() > 0
            &&& t.last() == '\n'
            &&& lines.len() == 7 + 7 * n
            &&& shows_head(lines, q)
            &&& lines.last().len() == 0
            &&& forall|i: int|
                0 <= i < n ==> shows_section(lines, 6 + 7 * i, #[trigger] q.proxies[i])
        }),
    decreases n,
{
    let now = QuickConfigView { proxies: q.proxies.take(n as int), ..q };
    let t = quick_text(now);
    if n == 0 {
        assert(q.proxies.take(0) =~= Seq::<QuickProxyView>::empty());
        lemma_head_lines(q, t);
        assert(text::pieces(t, '\n').take(6) =~= head_entries(q));
    } else {
        let m = (n - 1) as nat;
        lemma_form_lines(q, m);
        let before = quick_text((QuickConfigView { proxies: q.proxies.take(m as int), ..q }));
        let p = q.proxies[m as int];
        assert(q.proxies.take(n as int).drop_last() =~= q.proxies.take(m as int));
        assert(t =~= before + proxy_section(p));
        lemma_section_lines(before, p);
        let earlier = text::pieces(before, '\n');
        let lines = text::pieces(t, '\n');
        assert(lines.len() == 7 + 7 * n);
        assert forall|j: int| 0 <= j < 6 + 7 * m implies lines[j] == earlier[j] by {}
        assert(lines.take(6) =~= earlier.take(6));
        assert forall|i: int| 0 <= i < n implies shows_section(
            lines,
            6 + 7 * i,
            #[trigger] q.proxies[i],
        ) by {
            let at = 6 + 7 * i;
            if i < m {
                assert(shows_section(earlier, at, q.proxies[i]));
                assert(lines.subrange(at, at + 6) =~= earlier.subrange(at, at + 6));
            } else {
                assert(lines.subrange(at, at + 6) =~= section_entries(p));
            }
        }
    }
}

/// The quick form is written line by line: the server's address and port, the
/// way to log in, and for each proxy, in their order, its own name, type, local
/// address, local port and remote port. Texts stand escaped between quotes.
pub proof fn law_quick_form_is_written_line_by_line(q: QuickConfigView, i: int)
    requires
        form_on_lines(q),
    ensures
        ({
            let lines = text::pieces(quick_text(q), '\n');
            &&& lines.len() == 7 + 7 * q.proxies.len()
            &&& lines[0] == "serverAddr = \""@ + escaped(q.server_addr) + "\""@
            &&& lines[1] == "serverPort = "@ + decimal::decimal(q.server_port as nat)
            &&& lines[2].len() == 0
            &&& lines[3] == "auth.method = \""@ + escaped(q.auth_method) + "\""@
            &&& lines[4] == "auth.token = \""@ + escaped(q.auth_token) + "\""@
            &&& lines[5].len() == 0
            &&& lines.last().len() == 0
            &&& 0 <= i < q.proxies.len() ==> {
                let p = q.proxies[i];
                let at = 6 + 7 * i;
                &&& lines[at] == "[[proxies]]"@
                &&& lines[at + 1] == "name = \""@ + escaped(p.name) + "\""@
                &&& lines[at + 2] == "type = \""@ + escaped(p.proxy_type) + "\""@
                &&& lines[at + 3] == "localIP = \""@ + escaped(p.local_ip) + "\""@
                &&& lines[at + 4] == "localPort = "@ + decimal::decimal(p.local_port as nat)
                &&& lines[at + 5] == "remotePort = "@ + decimal::decimal(p.remote_port as nat)
                &&& lines[at + 6].len() == 0
            }
        }),
{
    lemma_form_lines(q, q.proxies.len());
    assert(q.proxies.take(q.proxies.len() as int) =~= q.proxies);
    lemma_head_shown(text::pieces(quick_text(q), '\n'), q);
    if 0 <= i < q.proxies.len() {
        let lines = text::pieces(quick_text(q), '\n');
        let at = 6 + 7 * i;
        assert(shows_section(lines, at, q.proxies[i]));
        lemma_section_at(lines, at, q.proxies[i]);
    }
}

proof fn lemma_section_at(lines: Seq<Seq<char>>, at: int, p: QuickProxyView)
    requires
        0 <= at,
        at + 6 < lines.len(),
        shows_section(lines, at, p),
    ensures
        lines[at] == "[[proxies]]"@,
        lines[at + 1] == "name = \""@ + escaped(p.name) + "\""@,
        lines[at + 2] == "type = \""@ + escaped(p.proxy_type) + "\""@,
        lines[at + 3] == "localIP = \""@ + escaped(p.local_ip) + "\""@,
        lines[at + 4] == "localPort = "@ + decimal::decimal(p.local_port as nat),
        lines[at + 5] == "remotePort = "@ + decimal::decimal(p.remote_port as nat),
        lines[at + 6].len() == 0,
{
    reveal_strlit("name");
    reveal_strlit("type");
    reveal_strlit("localIP");
    reveal_strlit("name = \"");
    reveal_strlit("type = \"");
    reveal_strlit("localIP = \"");
    reveal_strlit(" = \"");
    let l = lines.subrange(at, at + 6);
    assert(l[0] == lines[at] && l[1] == lines[at + 1] && l[2] == lines[at + 2] && l[3] == lines[at
        + 3] && l[4] == lines[at + 4] && l[5] == lines[at + 5]);
    assert("name"@ + " = \""@ =~= "name = \""@);
    assert("type"@ + " = \""@ =~= "type = \""@);
    assert("localIP"@ + " = \""@ =~= "localIP = \""@);
}

/// One more proxy adds its section at the end, and changes nothing before it.
pub proof fn law_sections_follow_each_other(q: QuickConfigView, p: QuickProxyView)
    ensures
        ({
            let more = QuickConfigView { proxies: q.proxies.push(p), ..q };
            let alone = QuickConfigView { proxies: seq![p], ..q };
            let none = QuickConfigView { proxies: Seq::empty(), ..q };
            &&& text::begins(quick_text(more), quick_text(q))
            &&& text::begins(quick_text(alone), quick_text(none))
            &&& quick_text(more).skip(quick_text(q).len() as int) == quick_text(alone).skip(
                quick_text(none).len() as int,
            )
            &&& quick_text(more) == quick_text(q) + ("[[proxies]]\nname = \""@ + escaped(p.name)
                + "\"\ntype = \""@ + escaped(p.proxy_type) + "\"\nlocalIP = \""@ + escaped(p.local_ip)
                + "\"\nlocalPort = "@ + decimal::decimal(p.local_port as nat) + "\nremotePort = "@
                + decimal::decimal(p.remote_port as nat) + "\n\n"@)
            &&& quick_text(none) == "serverAddr = \""@ + escaped(q.server_addr)
                + "\"\nserverPort = "@ + decimal::decimal(q.server_port as nat)
                + "\n\nauth.method = \""@ + escaped(q.auth_method) + "\"\nauth.token = \""@ + escaped(
                q.auth_token,
            ) + "\"\n\n"@
        }),
{
    let more = QuickConfigView { proxies: q.proxies.push(p), ..q };
    let alone = QuickConfigView { proxies: seq![p], ..q };
    let none = QuickConfigView { proxies: Seq::empty(), ..q };
    let empty = Seq::<QuickProxyView>::empty();
    assert(more.proxies.drop_last() =~= q.proxies);
    assert(alone.proxies.drop_last() =~= empty);
    assert(quick_text(more) =~= quick_text(q) + proxy_section(p));
    assert(quick_text(alone) =~= quick_text(none) + proxy_section(p));
    assert(quick_text(more).take(quick_text(q).len() as int) =~= quick_text(q));
    assert(quick_text(alone).take(quick_text(none).len() as int) =~= quick_text(none));
    assert(quick_text(more).skip(quick_text(q).len() as int) =~= proxy_section(p));
    assert(quick_text(alone).skip(quick_text(none).len() as int) =~= proxy_section(p));
    assert(proxy_sections(none.proxies) =~= Seq::<char>::empty());
}

/// The configuration used where no default is bundled with the application.
pub open spec fn fallback_form() -> QuickConfigView {
    QuickConfigView {
        server_addr: "127.0.0.1"@,
        server_port: 7000,
        auth_method: "token"@,
        auth_token: Seq::empty(),
        proxies: seq![
            QuickProxyView {
                name: "web"@,
                proxy_type: "tcp"@,
                local_ip: "127.0.0.1"@,
                local_port: 8080,
                remote_port: 8080,
            },
        ],
    }
}

/// The text of the default configuration: the bundled one, or the fallback
/// where none is bundled.
pub fn default_config_text(bundled: Option<String>) -> (out: String)
    ensures
        out@ == match bundled {
            Some(t) => t@,
            None => quick_text(fallback_form()),
        },
        fallback_form().server_addr == "127.0.0.1"@ && fallback_form().server_port == 7000,
        fallback_form().auth_method == "token"@ && fallback_form().auth_token.len() == 0,
        fallback_form().proxies.len() == 1 && fallback_form().proxies[0] == (QuickProxyView {
            name: "web"@,
            proxy_type: "tcp"@,
            local_ip: "127.0.0.1"@,
            local_port: 8080,
            remote_port: 8080,
        }),
{
    match bundled {
        Some(t) => t,
        None => {
            let mut proxies: Vec<QuickProxyRequest> = Vec::new();
            proxies.push(
                QuickProxyRequest {
                    name: "web".to_owned(),
                    proxy_type: "tcp".to_owned(),
                    local_ip: "127.0.0.1".to_owned(),
                    local_port: 8080,
                    remote_port: 8080,
                },
            );
            let request = SaveQuickConfigRequest {
                server_addr: "127.0.0.1".to_owned(),
                server_port: 7000,
                auth_method: "token".to_owned(),
                auth_token: String::new(),
                proxies,
            };
            assert(request@.proxies =~= fallback_form().proxies);
            render_quick_config(&request)
        },
    }
}

/// What the summary tells of one proxy.
pub struct ProxySummary {
    pub name: String,
    pub proxy_type: String,
    pub local_ip: String,
    pub local_port: Option<u16>,
    pub remote_port: Option<u16>,
}

/// What the summary tells of a configuration.
pub struct ConfigSummary {
    pub server_addr: String,
    pub server_port: Option<u16>,
    pub auth_method: String,
    pub auth_token: String,
    pub proxies: Vec<ProxySummary>,
}

/// What the summary tells of one proxy, by its texts.
pub struct ProxySummaryView {
    pub name: Seq<char>,
    pub proxy_type: Seq<char>,
    pub local_ip: Seq<char>,
    pub local_port: Option<u16>,
    pub remote_port: Option<u16>,
}

/// What the summary tells of a configuration, by its texts.
pub struct ConfigSummaryView {
    pub server_addr: Seq<char>,
    pub server_port: Option<u16>,
    pub auth_method: Seq<char>,
    pub auth_token: Seq<char>,
    pub proxies: Seq<ProxySummaryView>,
}

impl View for ProxySummary {
    type V = ProxySummaryView;

    open spec fn view(&self) -> ProxySummaryView {
        ProxySummaryView {
            name: self.name@,
            proxy_type: self.proxy_type@,
            local_ip: self.local_ip@,
            local_port: self.local_port,
            remote_port: self.remote_port,
        }
    }
}

impl View for ConfigSummary {
    type V = ConfigSummaryView;

    open spec fn view(&self) -> ConfigSummaryView {
        ConfigSummaryView {
            server_addr: self.server_addr@,
            server_port: self.server_port,
            auth_method: self.auth_method@,
            auth_token: self.auth_token@,
            proxies: self.proxies@.map_values(|p: ProxySummary| p@),
        }
    }
}

/// A summary is seen with the texts and numbers of its own fields.
pub proof fn law_summaries_are_seen_as_they_are(summary: ConfigSummary, i: int)
    ensures
        summary@.server_addr == summary.server_addr@,
        summary@.server_port == summary.server_port,
        summary@.auth_method == summary.auth_method@,
        summary@.auth_token == summary.auth_token@,
        summary@.proxies.len() == summary.proxies@.len(),
        0 <= i < summary.proxies@.len() ==> {
            let p = summary.proxies@[i];
            &&& summary@.proxies[i].name == p.name@
            &&& summary@.proxies[i].proxy_type == p.proxy_type@
            &&& summary@.proxies[i].local_ip == p.local_ip@
            &&& summary@.proxies[i].local_port == p.local_port
            &&& summary@.proxies[i].remote_port == p.remote_port
        },
{
}

/// The value of a table's entry.
pub open spec fn member(t: Toml, key: Seq<char>) -> Option<Toml> {
    match t {
        Toml::Table(m) => if m.contains_key(key) {
            Some(m[key])
        } else {
            None
        },
        _ => None,
    }
}

/// The value that is reached by following a path of keys.
pub open spec fn member_at(t: Toml, path: Seq<Seq<char>>) -> Option<Toml>
    decreases path.len(),
{
    if path.len() == 0 {
        Some(t)
    } else {
        match member_at(t, path.drop_last()) {
            Some(inner) => member(inner, path.last()),
            None => None,
        }
    }
}

/// The text at a path of keys.
pub open spec fn text_at(t: Toml, path: Seq<Seq<char>>) -> Option<Seq<char>> {
    match member_at(t, path) {
        Some(Toml::Text(s)) => Some(s),
        _ => None,
    }
}

/// The integer at a path of keys.
pub open spec fn integer_at(t: Toml, path: Seq<Seq<char>>) -> Option<i64> {
    match member_at(t, path) {
        Some(Toml::Integer(n)) => Some(n),
        _ => None,
    }
}

/// The port at a path of keys: the low 16 bits of the integer.
pub open spec fn port_at(t: Toml, path: Seq<Seq<char>>) -> Option<u16> {
    match integer_at(t, path) {
        Some(n) => Some(n as u16),
        None => None,
    }
}

/// The optional text, or the given one.
pub open spec fn text_or(s: Option<Seq<char>>, fallback: Seq<char>) -> Seq<char> {
    match s {
        Some(t) => t,
        None => fallback,
    }
}

/// The entries of the array `proxies`; none where there is no such array.
pub open spec fn proxy_items(t: Toml) -> Seq<Toml> {
    match member(t, "proxies"@) {
        Some(Toml::Array(items)) => items,
        _ => Seq::empty(),
    }
}

/// The summary of one proxy.
pub open spec fn proxy_summary_of(t: Toml) -> ProxySummaryView {
    ProxySummaryView {
        name: text_or(text_at(t, seq!["name"@]), Seq::empty()),
        proxy_type: text_or(text_at(t, seq!["type"@]), "tcp"@),
        local_ip: text_or(text_at(t, seq!["localIP"@]), "127.0.0.1"@),
        local_port: port_at(t, seq!["localPort"@]),
        remote_port: port_at(t, seq!["remotePort"@]),
    }
}

/// The summary of a configuration.
pub open spec fn summary_of(t: Toml) -> ConfigSummaryView {
    ConfigSummaryView {
        server_addr: text_or(text_at(t, seq!["serverAddr"@]), Seq::empty()),
        server_port: port_at(t, seq!["serverPort"@]),
        auth_method: text_or(text_at(t, seq!["auth"@, "method"@]), "token"@),
        auth_token: text_or(text_at(t, seq!["auth"@, "token"@]), Seq::empty()),
        proxies: proxy_items(t).map_values(|p: Toml| proxy_summary_of(p)),
    }
}

/// The document that a text is read as; the empty table where it is none.
pub open spec fn document_of(config_text: Seq<char>) -> Toml {
    match toml_doc::parsed(config_text) {
        Some(t) => t,
        None => Toml::Table(Map::empty()),
    }
}

/// A text stands for the document that it is read as, and for the empty table
/// where it is none. The proxies of a document are the items of its array
/// `proxies`.
pub proof fn law_documents_list_their_proxies(config_text: Seq<char>, m: Map<Seq<char>, Toml>)
    ensures
        toml_doc::parsed(config_text) is Some ==> document_of(config_text) == toml_doc::parsed(
            config_text,
        )->0,
        toml_doc::parsed(config_text) is None ==> proxy_items(document_of(config_text)).len() == 0,
        m.contains_key("proxies"@) && m["proxies"@] is Array ==> proxy_items(Toml::Table(m))
            == m["proxies"@]->Array_0,
        !(m.contains_key("proxies"@) && m["proxies"@] is Array) ==> proxy_items(
            Toml::Table(m),
        ).len() == 0,
{
}

/// The texts of a path of keys.
pub open spec fn path_texts(path: Seq<&str>) -> Seq<Seq<char>> {
    path.map_values(|s: &str| s@)
}

/// The value that is reached by following a path of keys.
fn value_at<'a>(value: &'a toml::Value, path: &[&str]) -> (found: Option<&'a toml::Value>)
    ensures
        match found {
            Some(v) => member_at(toml_doc::contents(*value), path_texts(path@)) == Some(
                toml_doc::contents(*v),
            ),
            None => member_at(toml_doc::contents(*value), path_texts(path@)) is None,
        },
{
    let ghost keys = path_texts(path@);
    let ghost whole = toml_doc::contents(*value);
    let mut current: &'a toml::Value = value;
    let mut i: usize = 0;
    while i < path.len()
        invariant
            i <= path@.len(),
            keys == path_texts(path@),
            whole == toml_doc::contents(*value),
            member_at(whole, keys.take(i as int)) == Some(toml_doc::contents(*current)),
        decreases path@.len() - i,
    {
        assert(keys.take(i + 1).drop_last() =~= keys.take(i as int));
        assert(keys.take(i + 1).last() == path@[i as int]@);
        match toml_doc::entry(current, path[i]) {
            Some(next) => {
                current = next;
            },
            None => {
                proof {
                    assert(member_at(whole, keys.take(i + 1)) is None);
                    lemma_missing_stays_missing(whole, keys, i + 1);
                }
                return None;
            },
        }
        i = i + 1;
    }
    assert(keys.take(i as int) =~= keys);
    Some(current)
}

proof fn lemma_missing_stays_missing(t: Toml, path: Seq<Seq<char>>, i: int)
    requires
        0 <= i <= path.len(),
        member_at(t, path.take(i)) is None,
    ensures
        member_at(t, path) is None,
    decreases path.len() - i,
{
    if i == path.len() {
        assert(path.take(i) =~= path);
    } else {
        assert(path.take(i + 1).drop_last() =~= path.take(i));
        lemma_missing_stays_missing(t, path, i + 1);
    }
}

/// The text at a path of keys.
pub fn get_string(value: &toml::Value, path: &[&str]) -> (found: Option<String>)
    ensures
        text::text_option(found) == text_at(toml_doc::contents(*value), path_texts(path@)),
{
    match value_at(value, path) {
        Some(v) => match v.as_str() {
            Some(s) => Some(s.to_owned()),
            None => None,
        },
        None => None,
    }
}

/// The integer at a path of keys.
pub fn get_integer(value: &toml::Value, path: &[&str]) -> (found: Option<i64>)
    ensures
        found == integer_at(toml_doc::contents(*value), path_texts(path@)),
{
    match value_at(value, path) {
        Some(v) => v.as_integer(),
        None => None,
    }
}

fn string_entry(value: &toml::Value, key: &str) -> (found: Option<String>)
    ensures
        text::text_option(found) == text_at(toml_doc::contents(*value), seq![key@]),
{
    let path = [key];
    assert(path_texts(path@) =~= seq![key@]);
    get_string(value, &path)
}

fn inner_string_entry(value: &toml::Value, outer: &str, inner: &str) -> (found: Option<String>)
    ensures
        text::text_option(found) == text_at(toml_doc::contents(*value), seq![outer@, inner@]),
{
    let path = [outer, inner];
    assert(path_texts(path@) =~= seq![outer@, inner@]);
    get_string(value, &path)
}

fn port_entry(value: &toml::Value, key: &str) -> (found: Option<u16>)
    ensures
        found == port_at(toml_doc::contents(*value), seq![key@]),
{
    let path = [key];
    assert(path_texts(path@) =~= seq![key@]);
    match get_integer(value, &path) {
        Some(n) => Some(
            #[verifier::truncate]
            (n as u16),
        ),
        None => None,
    }
}

fn string_or(found: Option<String>, fallback: &str) -> (out: String)
    ensures
        out@ == text_or(text::text_option(found), fallback@),
{
    match found {
        Some(s) => s,
        None => fallback.to_owned(),
    }
}

fn summarize_proxy(item: &toml::Value) -> (out: ProxySummary)
    ensures
        out@ == proxy_summary_of(toml_doc::contents(*item)),
{
    proof {
        reveal_strlit("");
        assert(""@ =~= Seq::<char>::empty());
    }
    ProxySummary {
        name: string_or(string_entry(item, "name"), ""),
        proxy_type: string_or(string_entry(item, "type"), "tcp"),
        local_ip: string_or(string_entry(item, "localIP"), "127.0.0.1"),
        local_port: port_entry(item, "localPort"),
        remote_port: port_entry(item, "remotePort"),
    }
}

/// The entries of the array `proxies`.
fn proxy_values(value: &toml::Value) -> (items: Option<&Vec<toml::Value>>)
    ensures
        match items {
            Some(v) => proxy_items(toml_doc::contents(*value)) == toml_doc::all_contents(v@),
            None => proxy_items(toml_doc::contents(*value)).len() == 0,
        },
        items is Some ==> toml_doc::contents(*value) is Table,
{
    match toml_doc::entry(value, "proxies") {
        Some(list) => list.as_array(),
        None => None,
    }
}

/// The summary of a document.
pub fn summarize_config(value: &toml::Value) -> (out: ConfigSummary)
    ensures
        out@ == summary_of(toml_doc::contents(*value)),
{
    let ghost whole = toml_doc::contents(*value);
    proof {
        reveal_strlit("");
        assert(""@ =~= Seq::<char>::empty());
    }
    let mut proxies: Vec<ProxySummary> = Vec::new();
    let ghost wanted = summary_of(whole).proxies;
    match proxy_values(value) {
        Some(items) => {
            let mut i: usize = 0;
            while i < items.len()
                invariant
                    i <= items@.len(),
                    proxies@.len() == i,
                    wanted.len() == items@.len(),
                    forall|j: int|
                        0 <= j < items@.len() ==> #[trigger] wanted[j] == proxy_summary_of(
                            toml_doc::contents(items@[j]),
                        ),
                    forall|j: int| 0 <= j < i ==> (#[trigger] proxies@[j])@ == wanted[j],
                decreases items@.len() - i,
            {
                proxies.push(summarize_proxy(&items[i]));
                i = i + 1;
            }
        },
        None => {},
    }
    assert(proxies@.map_values(|p: ProxySummary| p@) =~= wanted);
    ConfigSummary {
        server_addr: string_or(string_entry(value, "serverAddr"), ""),
        server_port: port_entry(value, "serverPort"),
        auth_method: string_or(inner_string_entry(value, "auth", "method"), "token"),
        auth_token: string_or(inner_string_entry(value, "auth", "token"), ""),
        proxies,
    }
}

/// The keys of a document are different texts.
proof fn lemma_keys()
    ensures
        "serverAddr"@ != "serverPort"@,
        "serverAddr"@ != "auth"@,
        "serverAddr"@ != "proxies"@,
        "serverPort"@ != "auth"@,
        "serverPort"@ != "proxies"@,
        "auth"@ != "proxies"@,
        "method"@ != "token"@,
        "name"@ != "type"@,
        "name"@ != "localIP"@,
        "name"@ != "localPort"@,
        "name"@ != "remotePort"@,
        "type"@ != "localIP"@,
        "type"@ != "localPort"@,
        "type"@ != "remotePort"@,
        "localIP"@ != "localPort"@,
        "localIP"@ != "remotePort"@,
        "localPort"@ != "remotePort"@,
        "serverAddr"@.len() == 10,
        "serverPort"@.len() == 10,
        "auth"@.len() == 4,
        "proxies"@.len() == 7,
        "method"@.len() == 6,
        "token"@.len() == 5,
        "name"@.len() == 4,
        "type"@.len() == 4,
        "localIP"@.len() == 7,
        "localPort"@.len() == 9,
        "remotePort"@.len() == 10,
        "$__toml_private_datetime"@.len() == 24,
{
    reveal_strlit("serverAddr");
    reveal_strlit("serverPort");
    reveal_strlit("auth");
    reveal_strlit("proxies");
    reveal_strlit("method");
    reveal_strlit("token");
    reveal_strlit("name");
    reveal_strlit("type");
    reveal_strlit("localIP");
    reveal_strlit("localPort");
    reveal_strlit("remotePort");
    reveal_strlit("$__toml_private_datetime");
    assert("serverAddr"@.len() == 10);
    assert("auth"@.len() == 4);
    assert("proxies"@.len() == 7);
    assert("method"@.len() == 6);
    assert("token"@.len() == 5);
    assert("localIP"@.len() == 7);
    assert("localPort"@.len() == 9);
    assert("remotePort"@.len() == 10);
    assert("serverAddr"@[6] != "serverPort"@[6]);
    assert("name"@[0] != "type"@[0]);
    assert("localPort"@[0] != "remotePort"@[0]);
}

proof fn lemma_one_key(t: Toml, key: Seq<char>)
    ensures
        member_at(t, seq![key]) == member(t, key),
{
    reveal_with_fuel(member_at, 2);
    assert(seq![key].drop_last() =~= Seq::<Seq<char>>::empty());
}

proof fn lemma_two_keys(t: Toml, outer: Seq<char>, inner: Seq<char>)
    ensures
        member_at(t, seq![outer, inner]) == (match member(t, outer) {
            Some(u) => member(u, inner),
            None => None,
        }),
{
    lemma_one_key(t, outer);
    assert(seq![outer, inner].drop_last() =~= seq![outer]);
}

proof fn lemma_proxy_contents(p: QuickProxyView)
    ensures
        proxy_summary_of(proxy_contents(p)) == (ProxySummaryView {
            name: p.name,
            proxy_type: p.proxy_type,
            local_ip: p.local_ip,
            local_port: Some(p.local_port),
            remote_port: Some(p.remote_port),
        }),
{
    lemma_keys();
    let t = proxy_contents(p);
    lemma_one_key(t, "name"@);
    lemma_one_key(t, "type"@);
    lemma_one_key(t, "localIP"@);
    lemma_one_key(t, "localPort"@);
    lemma_one_key(t, "remotePort"@);
}

/// The summary of the quick form's document shows what was entered.
pub proof fn law_quick_form_is_summarized(q: QuickConfigView)
    ensures
        summary_of(quick_contents(q)) == quick_summary(q),
{
    lemma_keys();
    let t = quick_contents(q);
    lemma_one_key(t, "serverAddr"@);
    lemma_one_key(t, "serverPort"@);
    lemma_two_keys(t, "auth"@, "method"@);
    lemma_two_keys(t, "auth"@, "token"@);
    let shown = summary_of(t).proxies;
    let wanted = quick_summary(q).proxies;
    assert(shown.len() == wanted.len());
    assert forall|i: int| 0 <= i < shown.len() implies shown[i] == wanted[i] by {
        lemma_proxy_contents(q.proxies[i]);
    }
    assert(shown =~= wanted);
}

proof fn lemma_port(n: i64)
    ensures
        (n as u16) as int == n % 65536,
{
    assert((n as u16) as int == (n as u64) as int % 65536) by (bit_vector);
    assert((n as u64) as int % 65536 == n as int % 65536) by (bit_vector);
}

/// The summary of a document shows the entries of its table: the texts and the
/// low 16 bits of the integers under the known keys, and what stands for them
/// where there is no such entry.
pub proof fn law_summary_shows_the_entries(m: Map<Seq<char>, Toml>)
    ensures
        ({
            let shown = summary_of(Toml::Table(m));
            let addr = "serverAddr"@;
            let port = "serverPort"@;
            &&& m.contains_key(addr) && m[addr] is Text ==> shown.server_addr == m[addr]->Text_0
            &&& !(m.contains_key(addr) && m[addr] is Text) ==> shown.server_addr.len() == 0
            &&& m.contains_key(port) && m[port] is Integer ==> shown.server_port is Some
                && shown.server_port->0 as int == m[port]->Integer_0 % 65536
            &&& !(m.contains_key(port) && m[port] is Integer) ==> shown.server_port is None
        }),
        m.contains_key("auth"@) && m["auth"@] is Table ==> {
                let shown = summary_of(Toml::Table(m));
                let a = m["auth"@]->Table_0;
                &&& a.contains_key("method"@) && a["method"@] is Text ==> shown.auth_method
                    == a["method"@]->Text_0
                &&& !(a.contains_key("method"@) && a["method"@] is Text) ==> shown.auth_method
                    == "token"@
                &&& a.contains_key("token"@) && a["token"@] is Text ==> shown.auth_token
                    == a["token"@]->Text_0
                &&& !(a.contains_key("token"@) && a["token"@] is Text) ==> shown.auth_token.len()
                    == 0
            },
        !(m.contains_key("auth"@) && m["auth"@] is Table) ==> summary_of(
            Toml::Table(m),
        ).auth_method == "token"@ && summary_of(Toml::Table(m)).auth_token.len() == 0,
        m.contains_key("proxies"@) && m["proxies"@] is Array ==> summary_of(
            Toml::Table(m),
        ).proxies.len() == m["proxies"@]->Array_0.len(),
        !(m.contains_key("proxies"@) && m["proxies"@] is Array) ==> summary_of(
            Toml::Table(m),
        ).proxies.len() == 0,
{
    let t = Toml::Table(m);
    lemma_one_key(t, "serverAddr"@);
    lemma_one_key(t, "serverPort"@);
    lemma_two_keys(t, "auth"@, "method"@);
    lemma_two_keys(t, "auth"@, "token"@);
    if m.contains_key("serverPort"@) && m["serverPort"@] is Integer {
        lemma_port(m["serverPort"@]->Integer_0);
    }
}

/// The summary shows each proxy, in its place, with its own entries.
pub proof fn law_summary_shows_each_proxy(
    m: Map<Seq<char>, Toml>,
    items: Seq<Toml>,
    i: int,
    p: Map<Seq<char>, Toml>,
)
    requires
        m.contains_key("proxies"@),
        m["proxies"@] == Toml::Array(items),
        0 <= i < items.len(),
        items[i] == Toml::Table(p),
    ensures
        ({
            let shown = summary_of(Toml::Table(m)).proxies[i];
            let name = "name"@;
            let kind = "type"@;
            let ip = "localIP"@;
            let local = "localPort"@;
            let remote = "remotePort"@;
            &&& p.contains_key(name) && p[name] is Text ==> shown.name == p[name]->Text_0
            &&& !(p.contains_key(name) && p[name] is Text) ==> shown.name.len() == 0
            &&& p.contains_key(kind) && p[kind] is Text ==> shown.proxy_type == p[kind]->Text_0
            &&& !(p.contains_key(kind) && p[kind] is Text) ==> shown.proxy_type == "tcp"@
            &&& p.contains_key(ip) && p[ip] is Text ==> shown.local_ip == p[ip]->Text_0
            &&& !(p.contains_key(ip) && p[ip] is Text) ==> shown.local_ip == "127.0.0.1"@
            &&& p.contains_key(local) && p[local] is Integer ==> shown.local_port is Some
                && shown.local_port->0 as int == p[local]->Integer_0 % 65536
            &&& !(p.contains_key(local) && p[local] is Integer) ==> shown.local_port is None
            &&& p.contains_key(remote) && p[remote] is Integer ==> shown.remote_port is Some
                && shown.remote_port->0 as int == p[remote]->Integer_0 % 65536
            &&& !(p.contains_key(remote) && p[remote] is Integer) ==> shown.remote_port is None
        }),
{
    let t = items[i];
    lemma_one_key(t, "name"@);
    lemma_one_key(t, "type"@);
    lemma_one_key(t, "localIP"@);
    lemma_one_key(t, "localPort"@);
    lemma_one_key(t, "remotePort"@);
    if p.contains_key("localPort"@) && p["localPort"@] is Integer {
        lemma_port(p["localPort"@]->Integer_0);
    }
    if p.contains_key("remotePort"@) && p["remotePort"@] is Integer {
        lemma_port(p["remotePort"@]->Integer_0);
    }
}

/// A proxy that is no table is shown with what stands for missing entries.
pub proof fn law_summary_of_a_proxy_without_entries(t: Toml)
    requires
        !(t is Table),
    ensures
        proxy_summary_of(t) == (ProxySummaryView {
            name: Seq::empty(),
            proxy_type: "tcp"@,
            local_ip: "127.0.0.1"@,
            local_port: None,
            remote_port: None,
        }),
{
    lemma_one_key(t, "name"@);
    lemma_one_key(t, "type"@);
    lemma_one_key(t, "localIP"@);
    lemma_one_key(t, "localPort"@);
    lemma_one_key(t, "remotePort"@);
}

/// A path of keys leads from table to table: through its first key to where the
/// rest of it leads from there.
pub proof fn law_paths_lead_through_tables(t: Toml, key: Seq<char>, rest: Seq<Seq<char>>)
    ensures
        member_at(t, Seq::<Seq<char>>::empty()) == Some(t),
        member_at(t, seq![key] + rest) == (match t {
            Toml::Table(m) => if m.contains_key(key) {
                member_at(m[key], rest)
            } else {
                None
            },
            _ => None,
        }),
        text_at(t, rest) is Some <==> member_at(t, rest) is Some && member_at(t, rest)->0 is Text,
        text_at(t, rest) is Some ==> member_at(t, rest) == Some(Toml::Text(text_at(t, rest)->0)),
        integer_at(t, rest) is Some <==> member_at(t, rest) is Some && member_at(t, rest)->0
            is Integer,
        integer_at(t, rest) is Some ==> member_at(t, rest) == Some(
            Toml::Integer(integer_at(t, rest)->0),
        ),
    decreases rest.len(),
{
    lemma_one_key(t, key);
    if rest.len() == 0 {
        assert(seq![key] + rest =~= seq![key]);
    } else {
        law_paths_lead_through_tables(t, key, rest.drop_last());
        assert((seq![key] + rest).drop_last() =~= seq![key] + rest.drop_last());
        assert((seq![key] + rest).last() == rest.last());
    }
}

/// The summary of a configuration text; a text that is no document counts as
/// the empty one.
pub fn parse_config_summary(config_text: &str) -> (out: ConfigSummary)
    ensures
        out@ == summary_of(document_of(config_text@)),
        forall|q: QuickConfigView|
            config_text@ == #[trigger] quick_text(q) && readable(q) ==> out@ == quick_summary(q),
        toml_doc::parsed(config_text@) matches Some(t) ==> out@ == summary_of(t),
        toml_doc::parsed(config_text@) is None ==> out@ == (ConfigSummaryView {
            server_addr: Seq::empty(),
            server_port: None,
            auth_method: "token"@,
            auth_token: Seq::empty(),
            proxies: Seq::empty(),
        }),
{
    match toml_doc::read_document(config_text) {
        Ok(value) => {
            proof {
                assert forall|q: QuickConfigView|
                    config_text@ == #[trigger] quick_text(q) && readable(q) implies summary_of(
                    toml_doc::contents(value),
                ) == quick_summary(q) by {
                    law_quick_form_is_summarized(q);
                }
            }
            summarize_config(&value)
        },
        Err(_) => {
            let out = ConfigSummary {
                server_addr: String::new(),
                server_port: None,
                auth_method: "token".to_owned(),
                auth_token: String::new(),
                proxies: Vec::new(),
            };
            proof {
                let empty = Toml::Table(Map::empty());
                reveal_with_fuel(member_at, 3);
                assert(seq!["auth"@, "method"@].drop_last() =~= seq!["auth"@]);
                assert(seq!["auth"@, "token"@].drop_last() =~= seq!["auth"@]);
                assert(out@.proxies =~= summary_of(empty).proxies);
                assert(out@.proxies =~= Seq::<ProxySummaryView>::empty());
                assert(out@.server_addr =~= Seq::<char>::empty());
            }
            out
        },
    }
}

/// Whether a text is a document.
pub fn validate_config_text(config_text: &str) -> (checked: Result<(), AppError>)
    ensures
        match checked {
            Ok(_) => toml_doc::parsed(config_text@) is Some,
            Err(e) => toml_doc::parsed(config_text@) is None && e == AppError::InvalidToml,
        },
        forall|q: QuickConfigView|
            config_text@ == #[trigger] quick_text(q) && readable(q) ==> checked is Ok,
{
    match toml_doc::read_document(config_text) {
        Ok(_) => Ok(()),
        Err(_) => Err(AppError::InvalidToml),
    }
}

/// The document with the given proxy as its only one.
pub open spec fn with_only_proxy(t: Toml, proxy: Toml) -> Toml {
    match t {
        Toml::Table(m) => Toml::Table(m.insert("proxies"@, Toml::Array(seq![proxy]))),
        _ => t,
    }
}

/// The name of the proxy at an index; one without a name is called by its
/// number.
pub open spec fn proxy_name_of(proxy: Toml, proxy_index: nat) -> Seq<char> {
    text_or(text_at(proxy, seq!["name"@]), "proxy-"@ + decimal::decimal(proxy_index + 1))
}

/// The configuration of a single proxy, and its name.
pub open spec fn single_proxy(t: Toml, proxy_index: nat) -> Option<(Toml, Seq<char>)> {
    let items = proxy_items(t);
    if proxy_index < items.len() {
        let proxy = items[proxy_index as int];
        Some((with_only_proxy(t, proxy), proxy_name_of(proxy, proxy_index)))
    } else {
        None
    }
}

/// Narrowing a document to a proxy keeps every entry of the document but
/// `proxies`, and of the proxies exactly the one at the index, as it is. The
/// service is called by the name in that proxy, or by its number.
pub proof fn law_narrowing_keeps_the_rest(
    m: Map<Seq<char>, Toml>,
    items: Seq<Toml>,
    proxy_index: nat,
)
    requires
        m.contains_key("proxies"@),
        m["proxies"@] == Toml::Array(items),
        proxy_index < items.len(),
    ensures
        single_proxy(Toml::Table(m), proxy_index) is Some,
        ({
            let (single, name) = single_proxy(Toml::Table(m), proxy_index)->0;
            &&& single is Table
            &&& single->Table_0.dom() == m.dom()
            &&& single->Table_0["proxies"@] == Toml::Array(seq![items[proxy_index as int]])
            &&& proxy_items(single) == seq![items[proxy_index as int]]
            &&& forall|k: Seq<char>|
                k != "proxies"@ && m.contains_key(k) ==> #[trigger] single->Table_0[k] == m[k]
            &&& name == match items[proxy_index as int] {
                Toml::Table(p) => if p.contains_key("name"@) && p["name"@] is Text {
                    p["name"@]->Text_0
                } else {
                    "proxy-"@ + decimal::decimal(proxy_index + 1)
                },
                _ => "proxy-"@ + decimal::decimal(proxy_index + 1),
            }
        }),
{
    let (single, _) = single_proxy(Toml::Table(m), proxy_index)->0;
    lemma_one_key(items[proxy_index as int], "name"@);
    assert(single->Table_0.dom() =~= m.dom());
}

/// Only a table with an array `proxies` that reaches to the index can be
/// narrowed.
pub proof fn law_only_listed_proxies_are_found(t: Toml, proxy_index: nat)
    ensures
        single_proxy(t, proxy_index) is Some <==> (t is Table && t->Table_0.contains_key(
            "proxies"@,
        ) && t->Table_0["proxies"@] is Array && proxy_index
            < t->Table_0["proxies"@]->Array_0.len()),
{
}

/// Narrows a document to the proxy at an index.
pub fn select_proxy(document: toml::Value, proxy_index: usize) -> (selected: Result<
    (toml::Value, String),
    AppError,
>)
    requires
        proxy_index < usize::MAX,
    ensures
        match selected {
            Ok((value, name)) => single_proxy(
                toml_doc::contents(document),
                proxy_index as nat,
            ) == Some((toml_doc::contents(value), name@)),
            Err(e) => single_proxy(toml_doc::contents(document), proxy_index as nat) is None && e
                == AppError::ProxyNotFound((proxy_index + 1) as u64),
        },
        selected is Ok <==> ({
            let t = toml_doc::contents(document);
            t is Table && t->Table_0.contains_key("proxies"@) && t->Table_0["proxies"@] is Array
                && proxy_index < t->Table_0["proxies"@]->Array_0.len()
        }),
        selected matches Ok((value, name)) ==> {
            let m = toml_doc::contents(document)->Table_0;
            let n = toml_doc::contents(value)->Table_0;
            &&& toml_doc::contents(value) is Table
            &&& n.dom() == m.dom()
            &&& n["proxies"@] == Toml::Array(
                seq![m["proxies"@]->Array_0[proxy_index as int]],
            )
            &&& forall|k: Seq<char>| k != "proxies"@ && m.contains_key(k) ==> #[trigger] n[k] == m[k]
        },
{
    let ghost whole = toml_doc::contents(document);
    let number: u64 = proxy_index as u64 + 1;
    proof {
        law_only_listed_proxies_are_found(whole, proxy_index as nat);
        if single_proxy(whole, proxy_index as nat) is Some {
            law_narrowing_keeps_the_rest(
                whole->Table_0,
                whole->Table_0["proxies"@]->Array_0,
                proxy_index as nat,
            );
        }
    }
    let proxy = match proxy_values(&document) {
        Some(items) => {
            if proxy_index >= items.len() {
                return Err(AppError::ProxyNotFound(number));
            }
            items[proxy_index].clone()
        },
        None => {
            return Err(AppError::ProxyNotFound(number));
        },
    };
    assert(toml_doc::contents(proxy) == proxy_items(whole)[proxy_index as int]);
    let name = match string_entry(&proxy, "name") {
        Some(s) => s,
        None => text::joined("proxy-", decimal::number_text(number).as_str()),
    };
    let ghost chosen = toml_doc::contents(proxy);
    let mut only: Vec<toml::Value> = Vec::new();
    only.push(proxy);
    assert(toml_doc::all_contents(only@) =~= seq![chosen]);
    let mut value = document;
    if !toml_doc::set_entry(&mut value, "proxies".to_owned(), toml_doc::array_of(only)) {
        return Err(AppError::NotATable);
    }
    Ok((value, name))
}

/// `single` tells of `whole` all but the other proxies.
pub open spec fn narrowed(
    whole: ConfigSummaryView,
    single: ConfigSummaryView,
    proxy_index: nat,
) -> bool {
    &&& single.server_addr == whole.server_addr
    &&& single.server_port == whole.server_port
    &&& single.auth_method == whole.auth_method
    &&& single.auth_token == whole.auth_token
    &&& proxy_index < whole.proxies.len()
    &&& single.proxies == seq![whole.proxies[proxy_index as int]]
}

/// Narrowing a document to one proxy keeps that proxy alone, and everything but
/// the proxies.
pub proof fn law_single_proxy_is_kept(t: Toml, proxy_index: nat)
    requires
        proxy_index < proxy_items(t).len(),
    ensures
        narrowed(
            summary_of(t),
            summary_of(with_only_proxy(t, proxy_items(t)[proxy_index as int])),
            proxy_index,
        ),
        toml_doc::plain_document(t) ==> toml_doc::plain_document(
            with_only_proxy(t, proxy_items(t)[proxy_index as int]),
        ),
{
    lemma_keys();
    let proxy = proxy_items(t)[proxy_index as int];
    let single = with_only_proxy(t, proxy);
    let table = t->Table_0;
    lemma_one_key(t, "serverAddr"@);
    lemma_one_key(t, "serverPort"@);
    lemma_two_keys(t, "auth"@, "method"@);
    lemma_two_keys(t, "auth"@, "token"@);
    lemma_one_key(single, "serverAddr"@);
    lemma_one_key(single, "serverPort"@);
    lemma_two_keys(single, "auth"@, "method"@);
    lemma_two_keys(single, "auth"@, "token"@);
    assert(proxy_items(single) == seq![proxy]);
    assert(summary_of(single).proxies =~= seq![summary_of(t).proxies[proxy_index as int]]);
    if toml_doc::plain_document(t) {
        let list = table["proxies"@];
        assert(toml_doc::plain_data(list, 15));
        assert(toml_doc::plain_data(proxy, 14));
        let only = seq![proxy];
        assert(toml_doc::plain_data(Toml::Array(only), 15));
        let narrow = single->Table_0;
        assert forall|k: Seq<char>| #[trigger] narrow.contains_key(k) implies k
            != "$__toml_private_datetime"@ && toml_doc::plain_data(narrow[k], 15) by {
            if k != "proxies"@ {
                assert(table.contains_key(k));
            }
        }
    }
}

/// The document of a printable quick form is plain data.
pub proof fn lemma_quick_contents_plain(q: QuickConfigView)
    ensures
        toml_doc::plain_document(quick_contents(q)),
{
    let t = quick_contents(q);
    let m = t->Table_0;
    lemma_keys();
    assert forall|k: Seq<char>| #[trigger] m.contains_key(k) implies k
        != "$__toml_private_datetime"@ && toml_doc::plain_data(m[k], 15) by {
        if k == "auth"@ {
            let auth = m[k]->Table_0;
            assert forall|j: Seq<char>| #[trigger] auth.contains_key(j) implies j
                != "$__toml_private_datetime"@ && toml_doc::plain_data(auth[j], 14) by {}
        } else if k == "proxies"@ {
            let items = m[k]->Array_0;
            assert forall|i: int| 0 <= i < items.len() implies toml_doc::plain_data(
                #[trigger] items[i],
                14,
            ) by {
                let entry = items[i]->Table_0;
                assert forall|j: Seq<char>| #[trigger] entry.contains_key(j) implies j
                    != "$__toml_private_datetime"@ && toml_doc::plain_data(entry[j], 13) by {}
            }
        }
    }
}

/// What `render_single_proxy_config` gives for a text.
pub open spec fn single_proxy_text(config_text: Seq<char>, proxy_index: nat) -> Option<
    (Seq<char>, Seq<char>),
> {
    match toml_doc::parsed(config_text) {
        Some(t) => match single_proxy(t, proxy_index) {
            Some((single, name)) => match toml_doc::rendered(single) {
                Some(out) => Some((out, name)),
                None => None,
            },
            None => None,
        },
        None => None,
    }
}

/// Why there is no configuration of a single proxy, if there is none.
pub open spec fn single_proxy_fault(
    config_text: Seq<char>,
    proxy_index: usize,
    fault: AppError,
) -> bool {
    match toml_doc::parsed(config_text) {
        None => fault == AppError::InvalidToml,
        Some(t) => match single_proxy(t, proxy_index as nat) {
            None => fault == AppError::ProxyNotFound((proxy_index + 1) as u64),
            Some((single, _)) => toml_doc::rendered(single) is None && fault
                == AppError::UnrenderableToml,
        },
    }
}

/// There is no configuration of a single proxy where the text is no document,
/// where there is no such proxy, whose number is told counted from one, and where
/// the narrowed document cannot be written.
pub proof fn law_missing_configuration_has_a_reason(
    config_text: Seq<char>,
    proxy_index: usize,
    fault: AppError,
)
    requires
        single_proxy_fault(config_text, proxy_index, fault),
    ensures
        fault == AppError::InvalidToml || fault == AppError::ProxyNotFound((proxy_index + 1) as u64)
            || fault == AppError::UnrenderableToml,
        fault is InvalidToml <==> toml_doc::parsed(config_text) is None,
        fault is ProxyNotFound <==> toml_doc::parsed(config_text) is Some && !({
            let t = toml_doc::parsed(config_text)->0;
            t is Table && t->Table_0.contains_key("proxies"@) && t->Table_0["proxies"@] is Array
                && proxy_index < t->Table_0["proxies"@]->Array_0.len()
        }),
        fault is UnrenderableToml ==> {
            let m = toml_doc::parsed(config_text)->0->Table_0;
            toml_doc::rendered(
                Toml::Table(
                    m.insert(
                        "proxies"@,
                        Toml::Array(seq![m["proxies"@]->Array_0[proxy_index as int]]),
                    ),
                ),
            ) is None
        },
{
    if toml_doc::parsed(config_text) is Some {
        let t = toml_doc::parsed(config_text)->0;
        law_only_listed_proxies_are_found(t, proxy_index as nat);
        if single_proxy(t, proxy_index as nat) is Some {
            let m = t->Table_0;
            let items = m["proxies"@]->Array_0;
            law_narrowing_keeps_the_rest(m, items, proxy_index as nat);
            let (single, _) = single_proxy(t, proxy_index as nat)->0;
            assert(single->Table_0 =~= m.insert(
                "proxies"@,
                Toml::Array(seq![items[proxy_index as int]]),
            ));
        }
    }
}

/// The configuration text of the proxy at an index alone, and the proxy's name.
pub fn render_single_proxy_config(config_text: &str, proxy_index: usize) -> (rendered: Result<
    (String, String),
    AppError,
>)
    requires
        proxy_index < usize::MAX,
    ensures
        match rendered {
            Ok((out, name)) => single_proxy_text(config_text@, proxy_index as nat) == Some(
                (out@, name@),
            ),
            Err(e) => single_proxy_fault(config_text@, proxy_index, e),
        },
        rendered matches Ok((out, name)) ==> (toml_doc::plain_document(document_of(config_text@))
            ==> narrowed(
            summary_of(document_of(config_text@)),
            summary_of(document_of(out@)),
            proxy_index as nat,
        )),
        toml_doc::plain_document(document_of(config_text@)) && proxy_index < proxy_items(
            document_of(config_text@),
        ).len() ==> (rendered matches Ok((out, name)) && toml_doc::parsed(out@) == Some(
            with_only_proxy(
                document_of(config_text@),
                proxy_items(document_of(config_text@))[proxy_index as int],
            ),
        )),
        toml_doc::parsed(config_text@) is None ==> rendered == Err::<(String, String), AppError>(
            AppError::InvalidToml,
        ),
        toml_doc::parsed(config_text@) matches Some(t) ==> (rendered == Err::<
            (String, String),
            AppError,
        >(AppError::ProxyNotFound((proxy_index + 1) as u64)) <==> !(t is Table
            && t->Table_0.contains_key("proxies"@) && t->Table_0["proxies"@] is Array
            && proxy_index < t->Table_0["proxies"@]->Array_0.len())),
        rendered == Err::<(String, String), AppError>(AppError::UnrenderableToml) ==> {
            let m = toml_doc::parsed(config_text@)->0->Table_0;
            let chosen = m["proxies"@]->Array_0[proxy_index as int];
            toml_doc::rendered(Toml::Table(m.insert("proxies"@, Toml::Array(seq![chosen]))))
                is None
        },
        rendered matches Err(e) ==> e is InvalidToml || e is ProxyNotFound || e is UnrenderableToml,
        rendered matches Ok((out, name)) ==> {
            let m = toml_doc::parsed(config_text@)->0->Table_0;
            let chosen = m["proxies"@]->Array_0[proxy_index as int];
            &&& toml_doc::rendered(
                Toml::Table(m.insert("proxies"@, Toml::Array(seq![chosen]))),
            ) == Some(out@)
            &&& toml_doc::plain_document(Toml::Table(m)) ==> toml_doc::parsed(out@) == Some(
                Toml::Table(m.insert("proxies"@, Toml::Array(seq![chosen]))),
            )
            &&& name@ == match chosen {
                Toml::Table(p) => if p.contains_key("name"@) && p["name"@] is Text {
                    p["name"@]->Text_0
                } else {
                    "proxy-"@ + decimal::decimal((proxy_index + 1) as nat)
                },
                _ => "proxy-"@ + decimal::decimal((proxy_index + 1) as nat),
            }
        },
        forall|q: QuickConfigView|
            config_text@ == #[trigger] quick_text(q) && readable(q) && proxy_index
                < q.proxies.len() ==> (rendered matches Ok((out, name)) && name@
                == q.proxies[proxy_index as int].name && narrowed(
                quick_summary(q),
                summary_of(document_of(out@)),
                proxy_index as nat,
            )),
{
    let document = match toml_doc::read_document(config_text) {
        Ok(value) => value,
        Err(_) => {
            return Err(AppError::InvalidToml);
        },
    };
    proof {
        let whole = toml_doc::contents(document);
        law_only_listed_proxies_are_found(whole, proxy_index as nat);
        if proxy_index < proxy_items(whole).len() {
            law_single_proxy_is_kept(whole, proxy_index as nat);
            law_narrowing_keeps_the_rest(
                whole->Table_0,
                whole->Table_0["proxies"@]->Array_0,
                proxy_index as nat,
            );
        }
        assert forall|q: QuickConfigView|
            config_text@ == #[trigger] quick_text(q) && readable(q) && proxy_index
                < q.proxies.len() implies whole == quick_contents(q) && summary_of(whole)
            == quick_summary(q) && toml_doc::plain_document(whole) && proxy_items(whole).len()
            == q.proxies.len() && proxy_name_of(
            proxy_items(whole)[proxy_index as int],
            proxy_index as nat,
        ) == q.proxies[proxy_index as int].name by {
            law_quick_form_is_summarized(q);
            lemma_quick_contents_plain(q);
            lemma_keys();
            let p = q.proxies[proxy_index as int];
            lemma_one_key(proxy_contents(p), "name"@);
            assert(proxy_items(whole)[proxy_index as int] == proxy_contents(p));
        }
    }
    match select_proxy(document, proxy_index) {
        Ok((value, name)) => match toml_doc::write_document(&value) {
            Ok(out) => Ok((out, name)),
            Err(_) => Err(AppError::UnrenderableToml),
        },
        Err(e) => Err(e),
    }
}

} // verus!
