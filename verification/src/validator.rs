//! One-pass validation of function bodies and constant expressions.
//!
//! The validator runs a symbolic execution over value types.  Its state
//! is a value-type stack and a control-frame stack; a frame that has been
//! left by an unconditional branch is *unreachable*, and a pop from the
//! bottom of such a frame yields the type `Any`, which matches every
//! expectation.

use vstd::prelude::*;
use crate::error::{Error, TYPE_MISMATCH};
use crate::signature::{Signature, SignatureView, ValType};

verus! {

/// The construct that a control frame belongs to.
#[derive(Clone, Copy, Debug, PartialEq, Eq, Structural)]
pub enum ControlType {
    Function,
    Block { start: usize },
    Loop,
    If { start: usize },
    IfElse { if_start: usize, else_start: usize },
}

/// What the validation of one instruction asks of the loop around it.
#[derive(Clone, Copy, Debug, PartialEq, Eq, Structural)]
pub enum Action {
    Continue,
    End,
}

/// A control frame: the block signature, the height of the value stack
/// at entry, whether the rest of the frame is unreachable, the construct,
/// and the byte offset of the block type.
#[derive(Clone, Debug)]
pub struct ControlFrame {
    pub sig: Signature,
    pub height: usize,
    pub unreachable: bool,
    pub control_type: ControlType,
    pub sig_pc: usize,
}

/// The mathematical content of a [`ControlFrame`].
pub struct FrameView {
    pub sig: SignatureView,
    pub height: usize,
    pub unreachable: bool,
    pub control_type: ControlType,
    pub sig_pc: usize,
}

impl View for ControlFrame {
    type V = FrameView;

    open spec fn view(&self) -> FrameView {
        FrameView {
            sig: self.sig@,
            height: self.height,
            unreachable: self.unreachable,
            control_type: self.control_type,
            sig_pc: self.sig_pc,
        }
    }
}

impl FrameView {
    /// The types that a branch to this frame carries: the parameters of
    /// a loop, the result of every other construct.
    pub open spec fn label_types(self) -> Seq<ValType> {
        if self.control_type == ControlType::Loop {
            self.sig.params
        } else {
            self.sig.results()
        }
    }
}

/// The validator's two stacks.
pub struct ValidatorStack {
    val_stack: Vec<ValType>,
    ctrl_stack: Vec<ControlFrame>,
}

/// The mathematical content of a [`ValidatorStack`].
pub struct StackView {
    pub vals: Seq<ValType>,
    pub ctrls: Seq<FrameView>,
}

impl View for ValidatorStack {
    type V = StackView;

    closed spec fn view(&self) -> StackView {
        StackView {
            vals: self.val_stack@,
            ctrls: Seq::new(self.ctrl_stack@.len(), |i: int| self.ctrl_stack@[i]@),
        }
    }
}

impl StackView {
    /// The stacks after `ty` has been pushed.
    pub open spec fn push_val(self, ty: ValType) -> StackView {
        StackView { vals: self.vals.push(ty), ..self }
    }

    /// The stacks after `types` have been pushed, first to last.
    pub open spec fn push_vals(self, types: Seq<ValType>) -> StackView {
        StackView { vals: self.vals + types, ..self }
    }

    /// The stacks after an optional result has been pushed.
    pub open spec fn push_result(self, result: Option<ValType>) -> StackView {
        match result {
            Some(t) => self.push_val(t),
            None => self,
        }
    }

    /// Pops one value: the type and the stacks after.  At the bottom of
    /// an unreachable frame the type is `Any` and the stacks stay.
    pub open spec fn pop_val(self) -> Result<(ValType, StackView), Error> {
        if self.ctrls.len() == 0 {
            Err(Error::Validation(TYPE_MISMATCH))
        } else if self.vals.len() == self.ctrls.last().height {
            if self.ctrls.last().unreachable {
                Ok((ValType::Any, self))
            } else {
                Err(Error::Validation(TYPE_MISMATCH))
            }
        } else if self.vals.len() < self.ctrls.last().height {
            Err(Error::Validation(TYPE_MISMATCH))
        } else {
            Ok((self.vals.last(), StackView { vals: self.vals.drop_last(), ..self }))
        }
    }

    /// Pops one value that must match `expect`.  The type returned is the
    /// more specific of the two.
    pub open spec fn pop_expect(self, expect: ValType) -> Result<(ValType, StackView), Error> {
        match self.pop_val() {
            Err(e) => Err(e),
            Ok((actual, s)) => if actual == ValType::Any {
                Ok((expect, s))
            } else if expect == ValType::Any {
                Ok((actual, s))
            } else if actual != expect {
                Err(Error::Validation(TYPE_MISMATCH))
            } else {
                Ok((actual, s))
            },
        }
    }

    /// Pops an optional result.
    pub open spec fn pop_result(self, result: Option<ValType>) -> Result<StackView, Error> {
        match result {
            None => Ok(self),
            Some(t) => match self.pop_expect(t) {
                Err(e) => Err(e),
                Ok((_, s)) => Ok(s),
            },
        }
    }

    /// Pops the first `n` of `types`, last first, in front of the types
    /// `acc` that were popped before.
    pub open spec fn pop_vals_from(self, types: Seq<ValType>, n: nat, acc: Seq<ValType>) -> Result<
        (Seq<ValType>, StackView),
        Error,
    >
        decreases n,
    {
        if n == 0 {
            Ok((acc, self))
        } else {
            match self.pop_expect(types[n - 1]) {
                Err(e) => Err(e),
                Ok((t, s)) => s.pop_vals_from(types, (n - 1) as nat, seq![t] + acc),
            }
        }
    }

    /// Pops values that must match `types`, last first.  Returns the
    /// types popped, in the order of `types`.
    pub open spec fn pop_vals(self, types: Seq<ValType>) -> Result<(Seq<ValType>, StackView), Error> {
        self.pop_vals_from(types, types.len(), Seq::empty())
    }

    /// Pops values that must match `types` and keeps only the stacks.
    pub open spec fn drop_vals(self, types: Seq<ValType>) -> Result<StackView, Error> {
        match self.pop_vals(types) {
            Err(e) => Err(e),
            Ok((_, s)) => Ok(s),
        }
    }

    /// Opens a frame for `sig` on the current height and pushes the
    /// parameters.
    pub open spec fn push_ctrl(self, sig: SignatureView, control_type: ControlType, sig_pc: usize) -> StackView {
        StackView {
            vals: self.vals + sig.params,
            ctrls: self.ctrls.push(
                FrameView {
                    sig,
                    height: self.vals.len() as usize,
                    unreachable: false,
                    control_type,
                    sig_pc,
                },
            ),
        }
    }

    /// Marks the current frame unreachable and cuts the value stack back
    /// to its height.
    pub open spec fn unreachable(self) -> StackView {
        if self.ctrls.len() == 0 {
            self
        } else {
            let f = self.ctrls.last();
            StackView {
                vals: if f.height <= self.vals.len() {
                    self.vals.subrange(0, f.height as int)
                } else {
                    self.vals
                },
                ctrls: self.ctrls.update(
                    self.ctrls.len() - 1,
                    FrameView { unreachable: true, ..f },
                ),
            }
        }
    }
}

impl ValidatorStack {
    /// Two empty stacks.
    pub fn new() -> (s: Self)
        ensures
            s@.vals == Seq::<ValType>::empty(),
            s@.ctrls == Seq::<FrameView>::empty(),
    {
        let s = Self { val_stack: Vec::new(), ctrl_stack: Vec::new() };
        assert(s@.ctrls =~= Seq::<FrameView>::empty());
        s
    }

    /// The height of the value stack.
    pub fn size(&self) -> (n: usize)
        ensures
            n == self@.vals.len(),
    {
        self.val_stack.len()
    }

    pub fn push_val(&mut self, ty: ValType)
        ensures
            final(self)@ == old(self)@.push_val(ty),
    {
        self.val_stack.push(ty);
        assert(self@.ctrls =~= old(self)@.ctrls);
    }

    pub fn push_vals(&mut self, types: &Vec<ValType>)
        ensures
            final(self)@ == old(self)@.push_vals(types@),
    {
        let mut i: usize = 0;
        while i < types.len()
            invariant
                i <= types@.len(),
                self.ctrl_stack == old(self).ctrl_stack,
                self.val_stack@ == old(self).val_stack@ + types@.subrange(0, i as int),
            decreases types@.len() - i,
        {
            self.val_stack.push(types[i]);
            i = i + 1;
            assert(self.val_stack@ =~= old(self).val_stack@ + types@.subrange(0, i as int));
        }
        assert(types@.subrange(0, i as int) =~= types@);
        assert(self@.ctrls =~= old(self)@.ctrls);
    }

    /// Pushes an optional result.
    pub fn push_result(&mut self, result: Option<ValType>)
        ensures
            final(self)@ == old(self)@.push_result(result),
    {
        match result {
            Some(t) => self.push_val(t),
            None => {},
        }
    }

    /// The number of open frames.
    pub fn frame_count(&self) -> (n: usize)
        ensures
            n == self@.ctrls.len(),
    {
        self.ctrl_stack.len()
    }

    /// The innermost frame.
    pub fn last_frame(&self) -> (r: Option<&ControlFrame>)
        ensures
            self@.ctrls.len() == 0 ==> r is None,
            self@.ctrls.len() > 0 ==> (r matches Some(f) && f@ == self@.ctrls.last()),
    {
        if self.ctrl_stack.len() == 0 {
            None
        } else {
            Some(&self.ctrl_stack[self.ctrl_stack.len() - 1])
        }
    }

    /// The frame at `index`, counted from the outermost.
    pub fn get_frame(&self, index: usize) -> (r: Option<&ControlFrame>)
        ensures
            index >= self@.ctrls.len() ==> r is None,
            index < self@.ctrls.len() ==> (r matches Some(f) && f@ == self@.ctrls[index as int]),
    {
        if index >= self.ctrl_stack.len() {
            None
        } else {
            Some(&self.ctrl_stack[index])
        }
    }

    pub fn push_frame(&mut self, frame: ControlFrame)
        ensures
            final(self)@.vals == old(self)@.vals,
            final(self)@.ctrls == old(self)@.ctrls.push(frame@),
    {
        self.ctrl_stack.push(frame);
        assert(self@.ctrls =~= old(self)@.ctrls.push(frame@));
    }

    pub fn pop_frame(&mut self) -> (r: Option<ControlFrame>)
        ensures
            final(self)@.vals == old(self)@.vals,
            old(self)@.ctrls.len() == 0 ==> r is None && final(self)@.ctrls == old(self)@.ctrls,
            old(self)@.ctrls.len() > 0 ==> (r matches Some(f) && f@ == old(self)@.ctrls.last()
                && final(self)@.ctrls == old(self)@.ctrls.drop_last()),
    {
        let r = self.ctrl_stack.pop();
        assert(self@.ctrls =~= if old(self)@.ctrls.len() > 0 {
            old(self)@.ctrls.drop_last()
        } else {
            old(self)@.ctrls
        });
        r
    }

    /// Pops one value; see [`StackView::pop_val`].
    pub fn pop_val(&mut self) -> (r: Result<ValType, Error>)
        ensures
            match old(self)@.pop_val() {
                Ok((t, s)) => r == Ok::<ValType, Error>(t) && final(self)@ == s,
                Err(e) => r == Err::<ValType, Error>(e) && final(self)@ == old(self)@,
            },
    {
        if self.ctrl_stack.len() == 0 {
            return Err(Error::Validation(TYPE_MISMATCH));
        }
        let height: usize = self.ctrl_stack[self.ctrl_stack.len() - 1].height;
        let unreachable: bool = self.ctrl_stack[self.ctrl_stack.len() - 1].unreachable;
        if self.val_stack.len() == height {
            if unreachable {
                return Ok(ValType::Any);
            }
            return Err(Error::Validation(TYPE_MISMATCH));
        }
        if self.val_stack.len() < height {
            return Err(Error::Validation(TYPE_MISMATCH));
        }
        match self.val_stack.pop() {
            Some(t) => {
                assert(self@.ctrls =~= old(self)@.ctrls);
                Ok(t)
            },
            None => Err(Error::Validation(TYPE_MISMATCH)),
        }
    }

    /// Pops one value that must match `expect`; see
    /// [`StackView::pop_expect`].
    pub fn pop_val_expect(&mut self, expect: ValType) -> (r: Result<ValType, Error>)
        ensures
            match old(self)@.pop_expect(expect) {
                Ok((t, s)) => r == Ok::<ValType, Error>(t) && final(self)@ == s,
                Err(e) => r == Err::<ValType, Error>(e),
            },
    {
        let actual: ValType = match self.pop_val() {
            Ok(t) => t,
            Err(e) => {
                return Err(e);
            },
        };
        if actual == ValType::Any {
            return Ok(expect);
        }
        if expect == ValType::Any {
            return Ok(actual);
        }
        if actual != expect {
            return Err(Error::Validation(TYPE_MISMATCH));
        }
        Ok(actual)
    }

    /// Pops an optional result; see [`StackView::pop_result`].
    pub fn pop_result(&mut self, result: Option<ValType>) -> (r: Result<(), Error>)
        ensures
            match old(self)@.pop_result(result) {
                Ok(s) => r == Ok::<(), Error>(()) && final(self)@ == s,
                Err(e) => r == Err::<(), Error>(e),
            },
    {
        match result {
            None => Ok(()),
            Some(t) => match self.pop_val_expect(t) {
                Ok(_) => Ok(()),
                Err(e) => Err(e),
            },
        }
    }

    /// Pops values that must match `types`, last first, and returns the
    /// types popped in the order of `types`; see [`StackView::pop_vals`].
    pub fn pop_vals(&mut self, types: &Vec<ValType>) -> (r: Result<Vec<ValType>, Error>)
        ensures
            match old(self)@.pop_vals(types@) {
                Ok((popped, s)) => r matches Ok(v) && v@ == popped && final(self)@ == s,
                Err(e) => r == Err::<Vec<ValType>, Error>(e),
            },
    {
        let mut popped: Vec<ValType> = Vec::new();
        let mut n: usize = types.len();
        while n > 0
            invariant
                n <= types@.len(),
                old(self)@.pop_vals(types@) == self@.pop_vals_from(types@, n as nat, popped@),
            decreases n,
        {
            let t: ValType = match self.pop_val_expect(types[n - 1]) {
                Ok(t) => t,
                Err(e) => {
                    return Err(e);
                },
            };
            let ghost before = popped@;
            popped.insert(0, t);
            assert(popped@ =~= seq![t] + before);
            n = n - 1;
        }
        Ok(popped)
    }

    /// Opens a frame; see [`StackView::push_ctrl`].
    pub fn push_ctrl(&mut self, sig: Signature, control_type: ControlType, sig_pc: usize)
        ensures
            final(self)@ == old(self)@.push_ctrl(sig@, control_type, sig_pc),
    {
        let params: Vec<ValType> = sig.duplicate().params;
        let frame = ControlFrame {
            sig,
            height: self.val_stack.len(),
            unreachable: false,
            control_type,
            sig_pc,
        };
        self.push_frame(frame);
        self.push_vals(&params);
    }

    /// Marks the current frame unreachable; see
    /// [`StackView::unreachable`].
    pub fn unreachable(&mut self)
        ensures
            final(self)@ == old(self)@.unreachable(),
    {
        let n: usize = self.ctrl_stack.len();
        if n > 0 {
            let height: usize = self.ctrl_stack[n - 1].height;
            self.val_stack.truncate(height);
            self.ctrl_stack[n - 1].unreachable = true;
            assert(self@.ctrls =~= old(self)@.ctrls.update(
                n - 1,
                FrameView { unreachable: true, ..old(self)@.ctrls.last() },
            ));
        }
    }
}

} // verus!
