//! Chat text with `§` formatting codes, turned into the chain of JSON text
//! components that Minecraft clients read: each code starts a new component,
//! nested as the single element of the previous one's "extra".
use crate::text::{chars_of, string_from_chars};
use vstd::prelude::*;

verus! {

/// One JSON text component; `None` fields are absent from the object.
#[derive(Clone, Debug)]
pub struct ChatComponent {
    pub text: Option<String>,
    pub bold: Option<bool>,
    pub obfuscated: Option<bool>,
    pub strikethrough: Option<bool>,
    pub underlined: Option<bool>,
    pub italic: Option<bool>,
    pub color: Option<&'static str>,
}

/// A component as contracts see it.
pub struct ComponentView {
    pub text: Option<Seq<char>>,
    pub bold: Option<bool>,
    pub obfuscated: Option<bool>,
    pub strikethrough: Option<bool>,
    pub underlined: Option<bool>,
    pub italic: Option<bool>,
    pub color: Option<Seq<char>>,
}

impl ChatComponent {
    pub open spec fn view(&self) -> ComponentView {
        ComponentView {
            text: match self.text {
                Some(t) => Some(t@),
                None => None,
            },
            bold: self.bold,
            obfuscated: self.obfuscated,
            strikethrough: self.strikethrough,
            underlined: self.underlined,
            italic: self.italic,
            color: match self.color {
                Some(c) => Some(c@),
                None => None,
            },
        }
    }
}

pub open spec fn components_view(v: Seq<ChatComponent>) -> Seq<ComponentView> {
    Seq::new(v.len(), |i: int| v[i].view())
}

pub open spec fn empty_component() -> ComponentView {
    ComponentView {
        text: None,
        bold: None,
        obfuscated: None,
        strikethrough: None,
        underlined: None,
        italic: None,
        color: None,
    }
}

/// Appends a character to the component's text, creating the text if absent.
pub open spec fn push_text(n: ComponentView, c: char) -> ComponentView {
    ComponentView {
        text: Some(
            match n.text {
                Some(t) => t.push(c),
                None => seq![c],
            },
        ),
        ..n
    }
}

/// The colour that a formatting code names.
pub open spec fn color_of(code: char) -> Option<&'static str> {
    if code == '0' {
        Some("black")
    } else if code == '1' {
        Some("dark_blue")
    } else if code == '2' {
        Some("dark_green")
    } else if code == '3' {
        Some("dark_aqua")
    } else if code == '4' {
        Some("dark_red")
    } else if code == '5' {
        Some("dark_purple")
    } else if code == '6' {
        Some("gold")
    } else if code == '7' {
        Some("gray")
    } else if code == '8' {
        Some("dark_gray")
    } else if code == '9' {
        Some("blue")
    } else if code == 'a' {
        Some("green")
    } else if code == 'b' {
        Some("aqua")
    } else if code == 'c' {
        Some("red")
    } else if code == 'd' {
        Some("light_purple")
    } else if code == 'e' {
        Some("yellow")
    } else if code == 'f' {
        Some("white")
    } else {
        None
    }
}

/// What a formatting code sets: `l` bold, `k` obfuscated, `m` strikethrough,
/// `n` underlined, `o` italic, `r` resets all five and the colour, and `0`-`9`,
/// `a`-`f` a colour. Other codes set nothing.
pub open spec fn apply_code(n: ComponentView, code: char) -> ComponentView {
    if code == 'l' {
        ComponentView { bold: Some(true), ..n }
    } else if code == 'k' {
        ComponentView { obfuscated: Some(true), ..n }
    } else if code == 'm' {
        ComponentView { strikethrough: Some(true), ..n }
    } else if code == 'n' {
        ComponentView { underlined: Some(true), ..n }
    } else if code == 'o' {
        ComponentView { italic: Some(true), ..n }
    } else if code == 'r' {
        ComponentView {
            bold: Some(false),
            obfuscated: Some(false),
            strikethrough: Some(false),
            underlined: Some(false),
            italic: Some(false),
            color: Some("reset"@),
            ..n
        }
    } else {
        match color_of(code) {
            Some(c) => ComponentView { color: Some(c@), ..n },
            None => n,
        }
    }
}

/// The parser's state: the components so far (the last one is the innermost),
/// and whether a `\` or a `§` was just read.
pub open spec fn parse_step(
    st: (Seq<ComponentView>, bool, bool),
    c: char,
) -> (Seq<ComponentView>, bool, bool) {
    let (nodes, escaping, modifying) = st;
    let last = nodes.len() - 1;
    if !escaping && !modifying {
        if c == '\\' {
            (nodes, true, false)
        } else if c == '§' {
            (nodes, false, true)
        } else {
            (nodes.update(last, push_text(nodes[last], c)), false, false)
        }
    } else if escaping {
        (nodes.update(last, push_text(nodes[last], c)), false, modifying)
    } else {
        // a code after text opens a new component
        let nodes = if nodes[last].text is Some {
            nodes.push(empty_component())
        } else {
            nodes
        };
        let last = nodes.len() - 1;
        (nodes.update(last, apply_code(nodes[last], c)), false, false)
    }
}

pub open spec fn parse_run(s: Seq<char>) -> (Seq<ComponentView>, bool, bool)
    decreases s.len(),
{
    if s.len() == 0 {
        (seq![empty_component()], false, false)
    } else {
        parse_step(parse_run(s.drop_last()), s.last())
    }
}

/// The components of a chat text; the outermost one has a text, "" if need be.
pub open spec fn chat_components(s: Seq<char>) -> Seq<ComponentView> {
    let nodes = parse_run(s).0;
    if nodes[0].text is None {
        nodes.update(0, ComponentView { text: Some(Seq::empty()), ..nodes[0] })
    } else {
        nodes
    }
}

proof fn lemma_parse_run_nonempty(s: Seq<char>)
    ensures
        parse_run(s).0.len() >= 1,
        !(parse_run(s).1 && parse_run(s).2),
    decreases s.len(),
{
    if s.len() > 0 {
        lemma_parse_run_nonempty(s.drop_last());
    }
}

/// The component being built, with its text as characters.
struct Building {
    text: Option<Vec<char>>,
    bold: Option<bool>,
    obfuscated: Option<bool>,
    strikethrough: Option<bool>,
    underlined: Option<bool>,
    italic: Option<bool>,
    color: Option<&'static str>,
}

impl Building {
    spec fn view(&self) -> ComponentView {
        ComponentView {
            text: match self.text {
                Some(t) => Some(t@),
                None => None,
            },
            bold: self.bold,
            obfuscated: self.obfuscated,
            strikethrough: self.strikethrough,
            underlined: self.underlined,
            italic: self.italic,
            color: match self.color {
                Some(c) => Some(c@),
                None => None,
            },
        }
    }

    fn new() -> (res: Self)
        ensures
            res.view() == empty_component(),
    {
        Building {
            text: None,
            bold: None,
            obfuscated: None,
            strikethrough: None,
            underlined: None,
            italic: None,
            color: None,
        }
    }

    fn push(&mut self, c: char)
        ensures
            final(self).view() == push_text(old(self).view(), c),
    {
        match &mut self.text {
            Some(t) => t.push(c),
            None => {
                let mut t: Vec<char> = Vec::new();
                t.push(c);
                self.text = Some(t);
            },
        }
        assert(self.view().text == push_text(old(self).view(), c).text);
    }

    fn apply(&mut self, code: char)
        ensures
            final(self).view() == apply_code(old(self).view(), code),
    {
        match code {
            'l' => {
                self.bold = Some(true);
            },
            'k' => {
                self.obfuscated = Some(true);
            },
            'm' => {
                self.strikethrough = Some(true);
            },
            'n' => {
                self.underlined = Some(true);
            },
            'o' => {
                self.italic = Some(true);
            },
            'r' => {
                self.bold = Some(false);
                self.obfuscated = Some(false);
                self.strikethrough = Some(false);
                self.underlined = Some(false);
                self.italic = Some(false);
                self.color = Some("reset");
            },
            '0' => {
                self.color = Some("black");
            },
            '1' => {
                self.color = Some("dark_blue");
            },
            '2' => {
                self.color = Some("dark_green");
            },
            '3' => {
                self.color = Some("dark_aqua");
            },
            '4' => {
                self.color = Some("dark_red");
            },
            '5' => {
                self.color = Some("dark_purple");
            },
            '6' => {
                self.color = Some("gold");
            },
            '7' => {
                self.color = Some("gray");
            },
            '8' => {
                self.color = Some("dark_gray");
            },
            '9' => {
                self.color = Some("blue");
            },
            'a' => {
                self.color = Some("green");
            },
            'b' => {
                self.color = Some("aqua");
            },
            'c' => {
                self.color = Some("red");
            },
            'd' => {
                self.color = Some("light_purple");
            },
            'e' => {
                self.color = Some("yellow");
            },
            'f' => {
                self.color = Some("white");
            },
            _ => {},
        }
    }

    fn finish(self) -> (res: ChatComponent)
        ensures
            res.view() == self.view(),
    {
        let text = match &self.text {
            Some(t) => Some(string_from_chars(t)),
            None => None,
        };
        ChatComponent {
            text,
            bold: self.bold,
            obfuscated: self.obfuscated,
            strikethrough: self.strikethrough,
            underlined: self.underlined,
            italic: self.italic,
            color: self.color,
        }
    }
}

/// Converts a string with `§` codes to the components of a chat message: the
/// first is the outermost, each next one the single element of the "extra" of
/// the one before. A `\` makes the next character plain text.
pub fn parse_json(input: &str) -> (res: Vec<ChatComponent>)
    ensures
        components_view(res@) == chat_components(input@),
{
    let chars = chars_of(input);
    let mut done: Vec<ChatComponent> = Vec::new();
    let mut innermost = Building::new();
    let mut escaping = false;
    let mut modifying = false;
    let mut i: usize = 0;
    while i < chars.len()
        invariant
            chars@ == input@,
            i <= chars@.len(),
            parse_run(chars@.take(i as int)) == (
                components_view(done@).push(innermost.view()),
                escaping,
                modifying,
            ),
            forall|j: int| 0 <= j < done@.len() ==> (#[trigger] done@[j]).text is Some,
        decreases chars@.len() - i,
    {
        let character = chars[i];
        proof {
            assert(chars@.take(i + 1).drop_last() =~= chars@.take(i as int));
            lemma_parse_run_nonempty(chars@.take(i as int));
        }
        let ghost before = components_view(done@).push(innermost.view());
        if !escaping && !modifying {
            if character == '\\' {
                escaping = true;
            } else if character == '§' {
                modifying = true;
            } else {
                innermost.push(character);
                assert(components_view(done@).push(innermost.view()) =~= before.update(
                    before.len() - 1,
                    push_text(before[before.len() - 1], character),
                ));
            }
        } else if escaping {
            innermost.push(character);
            assert(components_view(done@).push(innermost.view()) =~= before.update(
                before.len() - 1,
                push_text(before[before.len() - 1], character),
            ));
            escaping = false;
        } else {
            if innermost.text.is_some() {
                let mut finished = Building::new();
                std::mem::swap(&mut finished, &mut innermost);
                let ghost fv = finished.view();
                let ghost prev = done@;
                done.push(finished.finish());
                assert(components_view(done@) =~= components_view(prev).push(fv));
            }
            let ghost mid = components_view(done@).push(innermost.view());
            innermost.apply(character);
            assert(components_view(done@).push(innermost.view()) =~= mid.update(
                mid.len() - 1,
                apply_code(mid[mid.len() - 1], character),
            ));
            modifying = false;
        }
        i = i + 1;
    }
    assert(chars@.take(chars@.len() as int) =~= chars@);
    let ghost before = components_view(done@).push(innermost.view());
    if done.len() == 0 && innermost.text.is_none() {
        innermost.text = Some(Vec::new());
    }
    let ghost nodes = components_view(done@).push(innermost.view());
    let ghost prev = done@;
    done.push(innermost.finish());
    assert(components_view(done@) =~= nodes) by {
        assert(components_view(done@) =~= components_view(prev).push(nodes.last()));
    }
    proof {
        if prev.len() > 0 {
            assert(prev[0].text is Some);
            assert(nodes =~= before);
        } else {
            assert(nodes =~= chat_components(input@));
        }
    }
    done
}

/// Text without `§` and `\\` is one component holding the text.
pub proof fn lemma_plain_text(s: Seq<char>)
    requires
        forall|i: int| 0 <= i < s.len() ==> s[i] != '§' && s[i] != '\\',
    ensures
        chat_components(s) == seq![ComponentView { text: Some(s), ..empty_component() }],
{
    lemma_plain_run(s);
    if s.len() == 0 {
        assert(s =~= Seq::<char>::empty());
        let nodes = parse_run(s).0;
        assert(chat_components(s) =~= nodes.update(0, ComponentView { text: Some(s), ..nodes[0] }));
        assert(nodes.update(0, ComponentView { text: Some(s), ..nodes[0] }) =~= seq![
            ComponentView { text: Some(s), ..empty_component() },
        ]);
    }
}

/// Plain text after a code: the component the code opened gets the text.
proof fn lemma_text_after(pre: Seq<char>, n: ComponentView, s: Seq<char>)
    requires
        parse_run(pre) == (seq![n], false, false),
        n.text is None,
        forall|i: int| 0 <= i < s.len() ==> s[i] != '§' && s[i] != '\\',
    ensures
        parse_run(pre + s) == (
            seq![
                if s.len() == 0 {
                    n
                } else {
                    ComponentView { text: Some(s), ..n }
                },
            ],
            false,
            false,
        ),
    decreases s.len(),
{
    if s.len() == 0 {
        assert(pre + s =~= pre);
    } else {
        let t = s.drop_last();
        lemma_text_after(pre, n, t);
        assert((pre + s).drop_last() =~= pre + t);
        assert((pre + s).last() == s.last());
        if t.len() > 0 {
            assert(t.push(s.last()) =~= s);
        } else {
            assert(seq![s.last()] =~= s);
        }
    }
}

/// A colour code in front of plain text gives one component holding the text
/// in that colour, by the names Minecraft gives the sixteen chat colours.
pub proof fn lemma_color_codes(code: char, s: Seq<char>)
    requires
        s.len() > 0,
        forall|i: int| 0 <= i < s.len() ==> s[i] != '§' && s[i] != '\\',
    ensures
        ({
            let colored = |name: Seq<char>|
                chat_components(seq!['§', code] + s) == seq![
                    ComponentView { text: Some(s), color: Some(name), ..empty_component() },
                ];
            &&& code == '0' ==> colored("black"@)
            &&& code == '1' ==> colored("dark_blue"@)
            &&& code == '2' ==> colored("dark_green"@)
            &&& code == '3' ==> colored("dark_aqua"@)
            &&& code == '4' ==> colored("dark_red"@)
            &&& code == '5' ==> colored("dark_purple"@)
            &&& code == '6' ==> colored("gold"@)
            &&& code == '7' ==> colored("gray"@)
            &&& code == '8' ==> colored("dark_gray"@)
            &&& code == '9' ==> colored("blue"@)
            &&& code == 'a' ==> colored("green"@)
            &&& code == 'b' ==> colored("aqua"@)
            &&& code == 'c' ==> colored("red"@)
            &&& code == 'd' ==> colored("light_purple"@)
            &&& code == 'e' ==> colored("yellow"@)
            &&& code == 'f' ==> colored("white"@)
        }),
{
    let pre = seq!['§', code];
    assert(pre.drop_last() =~= seq!['§']);
    assert(seq!['§'].drop_last() =~= Seq::<char>::empty());
    let n = apply_code(empty_component(), code);
    assert(parse_run(Seq::<char>::empty()) == (seq![empty_component()], false, false));
    assert(parse_run(seq!['§']) == (seq![empty_component()], false, true));
    assert(seq![empty_component()].update(0, n) =~= seq![n]);
    assert(parse_run(pre) == (seq![n], false, false));
    lemma_text_after(pre, n, s);
    let nodes = parse_run(pre + s).0;
    assert(nodes[0].text is Some);
    assert(chat_components(pre + s) == nodes);
}

proof fn lemma_plain_run(s: Seq<char>)
    requires
        forall|i: int| 0 <= i < s.len() ==> s[i] != '§' && s[i] != '\\',
    ensures
        parse_run(s) == (
            seq![
                if s.len() == 0 {
                    empty_component()
                } else {
                    ComponentView { text: Some(s), ..empty_component() }
                },
            ],
            false,
            false,
        ),
    decreases s.len(),
{
    if s.len() > 0 {
        let t = s.drop_last();
        lemma_plain_run(t);
        if t.len() > 0 {
            assert(t.push(s.last()) =~= s);
        } else {
            assert(seq![s.last()] =~= s);
        }
    }
}

} // verus!
