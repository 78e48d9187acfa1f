//! The workspace strip of a layer: rebuilding it from live workspaces, and
//! doing no more than a change asks for.
use crate::button::{
    highlighted_to, resting, ActionModel, Button, ButtonAction, ButtonModel, ConfigError,
    ImageModel,
};
use crate::button_set::{button_models, buttons_of, coherent, set_of, ButtonSet, SetModel};
use crate::config::{copy_buttons, ButtonConfigModel, WORKSPACE_BUTTON_HARD_CAP};
use crate::helper_proto::WsEntry;
use crate::layer::{plain_text, FunctionLayer, LayerKind, LayerModel};
use crate::layer_config::lemma_plain_row;
use crate::layout::total;
use crate::strip::{
    classified, classify_strip_change, copy_model, flat, model_of, same_row, same_shape, sizes,
    truncate_model, truncated, truncation_keeps_the_front, truncation_settles, StripChange,
};
use crate::text::{decimal, decimal_spec};
use vstd::prelude::*;

verus! {

/// The button of a live workspace: its label, highlighted where it has the
/// focus. A tap asks for the focus; it never emits keys.
pub open spec fn workspace_button(e: WsEntry) -> ButtonModel {
    highlighted_to(
        resting(
            None,
            ImageModel::Text(decimal_spec(e.idx as nat)),
            ActionModel::FocusWorkspace(e.id),
            0,
            0,
        ),
        e.foc,
    )
}

/// A row of live workspaces.
pub open spec fn workspace_set(row: Seq<WsEntry>) -> SetModel {
    SetModel {
        displays_time: false,
        displays_battery: false,
        starts: Seq::new(row.len(), |i: int| i as usize),
        buttons: row.map_values(|e: WsEntry| workspace_button(e)),
        columns: row.len() as usize,
        faster_refresh: false,
    }
}

impl LayerModel {
    /// The layer with its strip rebuilt: from the workspaces that fit, or
    /// with the static buttons where there are none.
    pub open spec fn rebuilt(self, model: Seq<Seq<WsEntry>>) -> LayerModel {
        let shown = truncated(model, self.max_buttons as nat);
        let row = flat(shown);
        LayerModel {
            strip: if row.len() == 0 {
                set_of(self.fallback, None)->Ok_0
            } else {
                workspace_set(row)
            },
            groups: if row.len() == 0 {
                seq![self.fallback.len() as usize]
            } else {
                sizes(shown)
            },
            model,
            generation: (self.generation + 1) as u64,
            ..self
        }
    }

    /// The layer with the highlights of its strip moved.
    pub open spec fn decorated(self, model: Seq<Seq<WsEntry>>) -> LayerModel {
        let row = flat(model);
        LayerModel {
            strip: SetModel {
                buttons: Seq::new(
                    self.strip.buttons.len(),
                    |i: int|
                        if i < row.len() {
                            highlighted_to(self.strip.buttons[i], row[i].foc)
                        } else {
                            self.strip.buttons[i]
                        },
                ),
                ..self.strip
            },
            model,
            ..self
        }
    }

    /// What a set of workspaces asks of this layer, in terms of what is
    /// rendered of it.
    pub open spec fn strip_change(self, model: Seq<Seq<WsEntry>>) -> StripChange {
        if self.kind == LayerKind::Regions {
            classified(self.model, truncated(model, self.max_buttons as nat))
        } else {
            StripChange::Unchanged
        }
    }

    /// The layer after a set of workspaces arrived: no more is done than the
    /// change asks for.
    pub open spec fn strip_applied(self, model: Seq<Seq<WsEntry>>) -> LayerModel {
        let shown = truncated(model, self.max_buttons as nat);
        match self.strip_change(model) {
            StripChange::Unchanged => self,
            StripChange::Decoration => self.decorated(shown),
            StripChange::Structure => self.rebuilt(shown),
        }
    }

    /// The strip shows the workspaces that the layer remembers: labels,
    /// targets and highlight; the static buttons where it remembers none.
    pub open spec fn shows_its_model(self) -> bool {
        let row = flat(self.model);
        &&& truncated(self.model, self.max_buttons as nat) == self.model
        &&& if row.len() == 0 {
            same_looks(set_of(self.fallback, None)->Ok_0.buttons, self.strip.buttons)
        } else {
            &&& self.strip.buttons.len() == row.len()
            &&& forall|i: int|
                0 <= i < row.len() ==> shows_entry(#[trigger] self.strip.buttons[i], row[i])
        }
    }
}

/// Two buttons look alike and do the same, but for how they are held and
/// where a slider stands.
pub open spec fn same_look(a: ButtonModel, b: ButtonModel) -> bool {
    &&& a.action == b.action
    &&& a.highlighted == b.highlighted
    &&& !(a.image is Slider) ==> a.image == b.image
}

pub open spec fn same_looks(a: Seq<ButtonModel>, b: Seq<ButtonModel>) -> bool {
    &&& a.len() == b.len()
    &&& forall|i: int| 0 <= i < a.len() ==> same_look(#[trigger] a[i], b[i])
}

/// A button labelled as a workspace, aimed at it, and highlighted where it
/// has the focus.
pub open spec fn shows_entry(b: ButtonModel, e: WsEntry) -> bool {
    &&& b.image == ImageModel::Text(decimal_spec(e.idx as nat))
    &&& b.action == ActionModel::FocusWorkspace(e.id)
    &&& b.highlighted == e.foc
}

proof fn lemma_flat_last(model: Seq<Seq<WsEntry>>)
    requires
        model.len() > 0,
    ensures
        flat(model) == flat(model.drop_last()) + model.last(),
    decreases model.len(),
{
    if model.len() == 1 {
        assert(model.drop_first() =~= Seq::empty());
        assert(model.drop_last() =~= Seq::empty());
        assert(flat(model) =~= flat(model.drop_last()) + model.last());
    } else {
        let rest = model.drop_first();
        lemma_flat_last(rest);
        assert(rest.drop_last() =~= model.drop_last().drop_first());
        assert(flat(model) =~= flat(model.drop_last()) + model.last());
    }
}

proof fn lemma_sizes(model: Seq<Seq<WsEntry>>)
    requires
        flat(model).len() <= usize::MAX,
    ensures
        total(sizes(model)) == flat(model).len(),
        forall|g: int| 0 <= g < model.len() ==> #[trigger] sizes(model)[g] == model[g].len(),
    decreases model.len(),
{
    if model.len() > 0 {
        lemma_flat_last(model);
        lemma_sizes(model.drop_last());
        assert(sizes(model).drop_last() =~= sizes(model.drop_last()));
        assert forall|g: int| 0 <= g < model.len() implies #[trigger] sizes(model)[g]
            == model[g].len() by {
            if g < model.len() - 1 {
                assert(sizes(model.drop_last())[g] == model.drop_last()[g].len());
            }
        }
    }
}

proof fn lemma_workspace_set(row: Seq<WsEntry>)
    requires
        0 < row.len() <= 1000,
    ensures
        workspace_set(row).wf(),
{
    let s = workspace_set(row);
    assert forall|i: int| 0 <= i < s.buttons.len() implies coherent(#[trigger] s.buttons[i]) by {
        assert(s.buttons[i] == workspace_button(row[i]));
    }
}

proof fn lemma_same_flat(a: Seq<Seq<WsEntry>>, b: Seq<Seq<WsEntry>>)
    requires
        same_shape(a, b),
    ensures
        same_row(flat(a), flat(b)),
    decreases a.len(),
{
    if a.len() > 0 {
        let ra = a.drop_first();
        let rb = b.drop_first();
        assert(same_row(a[0], b[0]));
        assert forall|g: int| 0 <= g < ra.len() implies same_row(#[trigger] ra[g], rb[g]) by {
            assert(same_row(a[g + 1], b[g + 1]));
        }
        lemma_same_flat(ra, rb);
        let fa = flat(a);
        let fb = flat(b);
        assert forall|i: int| 0 <= i < fa.len() implies (#[trigger] fa[i]).id == fb[i].id
            && fa[i].idx == fb[i].idx by {
            if i < a[0].len() {
                assert(a[0][i].id == b[0][i].id);
            } else {
                assert(flat(ra)[i - a[0].len()].id == flat(rb)[i - a[0].len()].id);
            }
        }
    }
}

/// Rebuilding keeps a layer in order.
pub(crate) proof fn lemma_rebuilt(l: LayerModel, model: Seq<Seq<WsEntry>>)
    requires
        l.wf(),
        l.kind == LayerKind::Regions,
    ensures
        l.rebuilt(model).wf(),
        flat(truncated(model, l.max_buttons as nat)).len() <= l.max_buttons,
        set_of(l.fallback, None) is Ok,
        set_of(l.fallback, None)->Ok_0.buttons.len() == l.fallback.len(),
{
    let shown = truncated(model, l.max_buttons as nat);
    let row = flat(shown);
    truncation_keeps_the_front(model, l.max_buttons as nat);
    lemma_plain_row(l.fallback, None);
    let m = l.rebuilt(model);
    if row.len() == 0 {
        assert(m.groups.drop_last() =~= Seq::empty());
        assert(total(m.groups) == total(m.groups.drop_last()) + m.groups.last() as nat);
    } else {
        lemma_workspace_set(row);
        lemma_sizes(shown);
        assert forall|g: int| 0 <= g < m.groups.len() implies #[trigger] m.groups[g] > 0 by {
            assert(shown[g].len() > 0);
        }
        if shown.len() == 0 {
            assert(flat(shown).len() == 0);
        }
    }
    assert forall|i: int| 0 <= i < m.overlays.len() implies (
    #[trigger] m.overlays[i]).set.wf() by {
        assert(l.overlays[i].set.wf());
    }
}

/// Moving highlights keeps a layer in order.
pub(crate) proof fn lemma_decorated(l: LayerModel, model: Seq<Seq<WsEntry>>)
    requires
        l.wf(),
        l.kind == LayerKind::Regions,
    ensures
        l.decorated(model).wf(),
{
    let m = l.decorated(model);
    assert forall|i: int| 0 <= i < m.strip.buttons.len() implies coherent(
        #[trigger] m.strip.buttons[i],
    ) by {
        assert(coherent(l.strip.buttons[i]));
    }
}

pub(crate) proof fn lemma_strip_applied(l: LayerModel, model: Seq<Seq<WsEntry>>)
    requires
        l.wf(),
    ensures
        l.strip_applied(model).wf(),
{
    if l.kind == LayerKind::Regions {
        lemma_rebuilt(l, truncated(model, l.max_buttons as nat));
        lemma_decorated(l, truncated(model, l.max_buttons as nat));
    }
}

/// Applying the same workspaces again changes nothing: heartbeats cost
/// nothing, and no set of workspaces makes the strip rebuild forever.
pub proof fn applied_strips_are_settled(l: LayerModel, model: Seq<Seq<WsEntry>>)
    ensures
        l.strip_applied(model).strip_change(model) == StripChange::Unchanged,
        l.strip_applied(model).strip_applied(model) == l.strip_applied(model),
{
}

/// Whatever workspaces arrive, the strip shows what the layer remembers of
/// them.
pub proof fn strips_show_what_was_applied(l: LayerModel, model: Seq<Seq<WsEntry>>)
    requires
        l.wf(),
        l.kind == LayerKind::Regions,
        l.shows_its_model(),
    ensures
        l.strip_applied(model).shows_its_model(),
        l.strip_applied(model).model == truncated(model, l.max_buttons as nat),
{
    let cap = l.max_buttons as nat;
    let shown = truncated(model, cap);
    let m = l.strip_applied(model);
    let row = flat(shown);
    truncation_settles(model, cap);
    match l.strip_change(model) {
        StripChange::Unchanged => {},
        StripChange::Decoration => {
            lemma_same_flat(l.model, shown);
            let old_row = flat(l.model);
            if row.len() > 0 {
                assert forall|i: int| 0 <= i < row.len() implies shows_entry(
                    #[trigger] m.strip.buttons[i],
                    row[i],
                ) by {
                    assert(shows_entry(l.strip.buttons[i], old_row[i]));
                    assert(old_row[i].id == row[i].id);
                }
            }
        },
        StripChange::Structure => {
            lemma_rebuilt(l, shown);
            if row.len() > 0 {
                assert forall|i: int| 0 <= i < row.len() implies shows_entry(
                    #[trigger] m.strip.buttons[i],
                    row[i],
                ) by {
                    assert(m.strip.buttons[i] == workspace_button(row[i]));
                }
            }
        },
    }
}

/// Only a change of the buttons themselves makes a new generation; moving a
/// highlight keeps every touch on the strip valid.
pub proof fn only_rebuilding_changes_the_generation(l: LayerModel, model: Seq<Seq<WsEntry>>)
    requires
        l.generation < u64::MAX,
    ensures
        l.strip_change(model) == StripChange::Structure <==> l.strip_applied(model).generation
            != l.generation,
        l.strip_change(model) != StripChange::Structure ==> {
            &&& l.strip_applied(model).groups == l.groups
            &&& l.strip_applied(model).strip.buttons.len() == l.strip.buttons.len()
            &&& forall|i: int|
                0 <= i < l.strip.buttons.len() ==> {
                    let b = #[trigger] l.strip_applied(model).strip.buttons[i];
                    &&& b.pressed == l.strip.buttons[i].pressed
                    &&& b.action == l.strip.buttons[i].action
                    &&& b.image == l.strip.buttons[i].image
                }
        },
        l.strip_applied(model).base == l.base,
        l.strip_applied(model).overlays == l.overlays,
        l.strip_applied(model).stack == l.stack,
{
}

proof fn lemma_any_battery(cfg: Seq<ButtonConfigModel>, a: Option<Seq<char>>, b: Option<Seq<char>>)
    requires
        forall|i: int| 0 <= i < cfg.len() ==> plain_text(#[trigger] cfg[i]),
    ensures
        buttons_of(cfg, a) == buttons_of(cfg, b),
    decreases cfg.len(),
{
    if cfg.len() > 0 {
        assert forall|i: int| 0 <= i < cfg.drop_last().len() implies plain_text(
            #[trigger] cfg.drop_last()[i],
        ) by {
            assert(plain_text(cfg[i]));
        }
        lemma_any_battery(cfg.drop_last(), a, b);
        assert(plain_text(cfg[cfg.len() - 1]));
    }
}

/// Without workspaces the strip is the one that the configuration describes.
pub proof fn nothing_restores_the_fallback(l: LayerModel, battery: Option<Seq<char>>)
    requires
        l.wf(),
        l.kind == LayerKind::Regions,
    ensures
        set_of(l.fallback, battery) == Ok::<SetModel, ConfigError>(
            l.rebuilt(Seq::empty()).strip,
        ),
        l.rebuilt(Seq::empty()).groups == seq![l.fallback.len() as usize],
        l.rebuilt(Seq::empty()).model.len() == 0,
{
    lemma_any_battery(l.fallback, None, battery);
    lemma_plain_row(l.fallback, None);
    assert(truncated(Seq::<Seq<WsEntry>>::empty(), l.max_buttons as nat) =~= Seq::empty());
}

impl FunctionLayer {
    /// Rebuilds the strip from live workspaces, or with the static buttons
    /// where none of them can be shown. Every touch on the strip has to be
    /// over: the new generation makes the old buttons unreachable.
    pub fn rebuild_strip(&mut self, model: &Vec<Vec<WsEntry>>)
        requires
            old(self)@.wf(),
            old(self)@.kind == LayerKind::Regions,
            old(self)@.generation < u64::MAX,
        ensures
            final(self)@ == old(self)@.rebuilt(model_of(model@)),
            final(self)@.wf(),
    {
        let ghost before = self@;
        proof {
            lemma_rebuilt(before, model_of(model@));
        }
        let shown = truncate_model(model, self.strip_max_buttons);
        let ghost rows = model_of(shown@);
        proof {
            if flat(rows).len() > 0 {
                lemma_sizes(rows);
            }
        }
        let mut buttons: Vec<(usize, Button)> = Vec::new();
        let mut groups: Vec<usize> = Vec::new();
        let mut g: usize = 0;
        assert(rows.take(0) =~= Seq::empty());
        while g < shown.len()
            invariant
                g <= shown@.len() == rows.len(),
                rows == model_of(shown@),
                flat(rows).len() <= WORKSPACE_BUTTON_HARD_CAP,
                groups@ == sizes(rows.take(g as int)),
                button_models(buttons@) == flat(rows.take(g as int)).map_values(
                    |e: WsEntry| workspace_button(e),
                ),
                forall|j: int| 0 <= j < buttons@.len() ==> (#[trigger] buttons@[j]).0 == j,
            decreases shown@.len() - g,
        {
            let ghost done = flat(rows.take(g as int));
            let ghost through = rows.take(g + 1);
            proof {
                lemma_flat_last(through);
                assert(through.drop_last() =~= rows.take(g as int));
                assert(through.last() == shown@[g as int]@);
                lemma_flat_take(rows, g + 1);
            }
            let group = &shown[g];
            let size: usize = group.len();
            let mut i: usize = 0;
            assert(done + group@.take(0) =~= done);
            while i < size
                invariant
                    i <= size == group@.len(),
                    done.len() + size <= WORKSPACE_BUTTON_HARD_CAP,
                    button_models(buttons@) == (done + group@.take(i as int)).map_values(
                        |e: WsEntry| workspace_button(e),
                    ),
                    forall|j: int| 0 <= j < buttons@.len() ==> (#[trigger] buttons@[j]).0 == j,
                decreases size - i,
            {
                let entry = group[i];
                let ghost made = button_models(buttons@);
                assert(made.len() == done.len() + i);
                let mut button = Button::new_text(
                    decimal(entry.idx as u64),
                    ButtonAction::FocusWorkspace(entry.id),
                );
                button.set_highlighted(entry.foc);
                let at: usize = buttons.len();
                buttons.push((at, button));
                assert(button_models(buttons@) =~= made.push(workspace_button(entry)));
                assert((done + group@.take(i + 1)).map_values(|e: WsEntry| workspace_button(e))
                    =~= made.push(workspace_button(entry)));
                i = i + 1;
            }
            assert(group@.take(size as int) =~= group@);
            groups.push(size);
            assert(groups@ =~= sizes(through));
            g = g + 1;
        }
        assert(rows.take(rows.len() as int) =~= rows);
        if buttons.len() == 0 {
            assert(button_models(buttons@).len() == 0);
            match ButtonSet::with_config(copy_buttons(&self.fallback_strip_cfg), &None) {
                Ok(strip) => {
                    self.strip_groups = vec![strip.buttons.len()];
                    self.strip = strip;
                    assert(self@.groups =~= seq![before.fallback.len() as usize]);
                },
                Err(_) => {},
            }
        } else {
            assert(button_models(buttons@).len() == buttons@.len());
            let columns: usize = buttons.len();
            self.strip = ButtonSet {
                displays_time: false,
                displays_battery: false,
                buttons,
                virtual_button_count: columns,
                faster_refresh: false,
            };
            assert(self.strip@.starts =~= workspace_set(flat(rows)).starts);
            self.strip_groups = groups;
        }
        self.strip_model = copy_model(model);
        self.strip_generation = self.strip_generation + 1;
        assert(self@ =~= before.rebuilt(model_of(model@)));
    }

    /// Moves the highlights of the strip.
    fn decorate_strip(&mut self, model: Vec<Vec<WsEntry>>)
        requires
            old(self)@.wf(),
            old(self)@.kind == LayerKind::Regions,
        ensures
            final(self)@ == old(self)@.decorated(model_of(model@)),
            final(self)@.wf(),
    {
        let ghost before = self@;
        let ghost rows = model_of(model@);
        let ghost row = flat(rows);
        proof {
            lemma_decorated(before, rows);
        }
        let n: usize = self.strip.buttons.len();
        let mut at: usize = 0;
        let mut g: usize = 0;
        assert(rows.take(0) =~= Seq::empty());
        while g < model.len()
            invariant
                g <= model@.len() == rows.len(),
                rows == model_of(model@),
                row == flat(rows),
                n == before.strip.buttons.len() == self.strip.buttons@.len(),
                at == (if flat(rows.take(g as int)).len() <= n {
                    flat(rows.take(g as int)).len()
                } else {
                    n as nat
                }),
                self@ == (LayerModel {
                    strip: SetModel { buttons: self@.strip.buttons, ..before.strip },
                    ..before
                }),
                forall|j: int|
                    0 <= j < n ==> #[trigger] self@.strip.buttons[j] == (if j < at {
                        highlighted_to(before.strip.buttons[j], row[j].foc)
                    } else {
                        before.strip.buttons[j]
                    }),
            decreases model@.len() - g,
        {
            let group = &model[g];
            let size: usize = group.len();
            let ghost done = flat(rows.take(g as int));
            let ghost through = rows.take(g + 1);
            proof {
                lemma_flat_last(through);
                assert(through.drop_last() =~= rows.take(g as int));
                assert(through.last() == group@);
                lemma_flat_take(rows, g + 1);
            }
            let mut i: usize = 0;
            while i < size && at < n
                invariant
                    i <= size == group@.len(),
                    row == flat(rows),
                    row.len() >= done.len() + size,
                    forall|j: int|
                        0 <= j < size ==> row[done.len() + j] == #[trigger] group@[j],
                    n == before.strip.buttons.len() == self.strip.buttons@.len(),
                    at == (if done.len() + i <= n {
                        done.len() + i
                    } else {
                        n as int
                    }),
                    self@ == (LayerModel {
                        strip: SetModel { buttons: self@.strip.buttons, ..before.strip },
                        ..before
                    }),
                    forall|j: int|
                        0 <= j < n ==> #[trigger] self@.strip.buttons[j] == (if j < at {
                            highlighted_to(before.strip.buttons[j], row[j].foc)
                        } else {
                            before.strip.buttons[j]
                        }),
                decreases size - i,
            {
                let ghost now = self@;
                assert(now.strip.buttons[at as int] == before.strip.buttons[at as int]);
                assert(row[done.len() + i] == group@[i as int]);
                self.strip.buttons[at].1.set_highlighted(group[i].foc);
                assert(self@.strip.starts =~= now.strip.starts);
                assert(self@.strip.buttons =~= now.strip.buttons.update(
                    at as int,
                    highlighted_to(before.strip.buttons[at as int], group@[i as int].foc),
                ));
                at = at + 1;
                i = i + 1;
            }
            g = g + 1;
        }
        assert(rows.take(rows.len() as int) =~= rows);
        self.strip_model = model;
        assert(self@.strip.buttons =~= before.decorated(rows).strip.buttons);
        assert(self@ =~= before.decorated(rows));
    }

    /// What a set of workspaces asks of this layer.
    pub fn strip_change(&self, model: &Vec<Vec<WsEntry>>) -> (r: StripChange)
        ensures
            r == self@.strip_change(model_of(model@)),
    {
        if self.is_regions() {
            classify_strip_change(
                &self.strip_model,
                &truncate_model(model, self.strip_max_buttons),
            )
        } else {
            StripChange::Unchanged
        }
    }

    /// Applies a set of workspaces, doing no more than the change asks for;
    /// says whether the strip was rebuilt.
    pub fn apply_strip(&mut self, model: &Vec<Vec<WsEntry>>) -> (rebuilt: bool)
        requires
            old(self)@.wf(),
            old(self)@.strip_change(model_of(model@)) == StripChange::Structure ==> old(
                self,
            )@.generation < u64::MAX,
        ensures
            final(self)@ == old(self)@.strip_applied(model_of(model@)),
            final(self)@.wf(),
            rebuilt == (old(self)@.strip_change(model_of(model@)) == StripChange::Structure),
    {
        match self.strip_change(model) {
            StripChange::Unchanged => false,
            StripChange::Decoration => {
                let shown = truncate_model(model, self.strip_max_buttons);
                self.decorate_strip(shown);
                false
            },
            StripChange::Structure => {
                let shown = truncate_model(model, self.strip_max_buttons);
                self.rebuild_strip(&shown);
                true
            },
        }
    }
}

proof fn lemma_flat_take(model: Seq<Seq<WsEntry>>, n: int)
    requires
        0 < n <= model.len(),
    ensures
        flat(model.take(n)).len() <= flat(model).len(),
        flat(model).take(flat(model.take(n)).len() as int) == flat(model.take(n)),
        forall|j: int|
            0 <= j < model[n - 1].len() ==> flat(model)[flat(model.take(n - 1)).len() + j]
                == #[trigger] model[n - 1][j],
    decreases model.len() - n,
{
    let head = model.take(n);
    lemma_flat_last(head);
    assert(head.drop_last() =~= model.take(n - 1));
    if n < model.len() {
        lemma_flat_take(model, n + 1);
        lemma_flat_last(model.take(n + 1));
        assert(model.take(n + 1).drop_last() =~= head);
        assert(flat(model).take(flat(head).len() as int) =~= flat(head));
    } else {
        assert(head =~= model);
        assert(flat(model).take(flat(head).len() as int) =~= flat(head));
    }
    assert forall|j: int| 0 <= j < model[n - 1].len() implies flat(model)[flat(
        model.take(n - 1),
    ).len() + j] == #[trigger] model[n - 1][j] by {
        let k = flat(model.take(n - 1)).len() + j;
        assert(flat(head)[k] == model[n - 1][j]);
        assert(flat(model).take(flat(head).len() as int)[k] == flat(model)[k]);
    }
}

} // verus!
