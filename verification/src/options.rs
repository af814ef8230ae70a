use vstd::prelude::*;
use crate::error::RbdError;

verus! {

/// The entries of a librbd image option list that image creation, cloning
/// and copying set.
#[derive(Clone, Copy, Debug, PartialEq, Eq, Structural)]
pub enum ImageOption {
    Format,
    Features,
    Order,
    StripeUnit,
    StripeCount,
    DataPool,
}

impl ImageOption {
    /// The option's number in librbd's image option lists
    /// (`RBD_IMAGE_OPTION_FORMAT` and its neighbours).
    pub open spec fn option_number(self) -> i32 {
        match self {
            ImageOption::Format => 0,
            ImageOption::Features => 1,
            ImageOption::Order => 2,
            ImageOption::StripeUnit => 3,
            ImageOption::StripeCount => 4,
            ImageOption::DataPool => 10,
        }
    }

    /// The option's number in librbd's image option lists.
    pub fn code(&self) -> (c: i32)
        ensures
            c == self.option_number(),
    {
        match self {
            ImageOption::Format => 0,
            ImageOption::Features => 1,
            ImageOption::Order => 2,
            ImageOption::StripeUnit => 3,
            ImageOption::StripeCount => 4,
            ImageOption::DataPool => 10,
        }
    }
}

/// A value of an image option: a number, or a C string (its bytes with
/// the terminator).
#[derive(Debug)]
pub enum OptionValue {
    Number(u64),
    Text(Vec<u8>),
}

/// An option value as mathematics sees it.
pub enum ValueView {
    Number(u64),
    Text(Seq<u8>),
}

impl View for OptionValue {
    type V = ValueView;

    open spec fn view(&self) -> ValueView {
        match self {
            OptionValue::Number(n) => ValueView::Number(*n),
            OptionValue::Text(b) => ValueView::Text(b@),
        }
    }
}

/// A copy of an option value.
pub fn copy_value(v: &OptionValue) -> (r: OptionValue)
    ensures
        r@ == v@,
{
    match v {
        OptionValue::Number(n) => OptionValue::Number(*n),
        OptionValue::Text(b) => OptionValue::Text(vstd::slice::slice_to_vec(b.as_slice())),
    }
}

/// One value to set in an image option list. When `checked` holds, a
/// failure to set it fails the whole request.
#[derive(Debug)]
pub struct OptionSetting {
    pub option: ImageOption,
    pub value: OptionValue,
    pub checked: bool,
}

/// A setting as mathematics sees it.
pub struct SettingView {
    pub option: ImageOption,
    pub value: ValueView,
    pub checked: bool,
}

impl View for OptionSetting {
    type V = SettingView;

    open spec fn view(&self) -> SettingView {
        SettingView { option: self.option, value: self.value@, checked: self.checked }
    }
}

/// The views of a list of settings.
pub open spec fn setting_views(v: Seq<OptionSetting>) -> Seq<SettingView> {
    v.map_values(|s: OptionSetting| s@)
}

/// A setting of a number.
pub open spec fn setting(option: ImageOption, value: u64, checked: bool) -> SettingView {
    SettingView { option, value: ValueView::Number(value), checked }
}

/// The value of an optional argument, zero when it is absent.
pub open spec fn or_zero(v: Option<u64>) -> u64 {
    match v {
        Some(x) => x,
        None => 0,
    }
}

/// A checked setting of `option` when a value is given, nothing otherwise.
pub open spec fn given(option: ImageOption, v: Option<u64>) -> Seq<SettingView> {
    match v {
        Some(x) => seq![setting(option, x, true)],
        None => Seq::empty(),
    }
}

/// The image format to create: 1, the old format, when asked for, and 2
/// otherwise.
pub open spec fn image_format(old_format: bool) -> u64 {
    if old_format {
        1
    } else {
        2
    }
}

/// A checked setting of the data pool when one is given (as the bytes of
/// its C string), nothing otherwise.
pub open spec fn given_pool(data_pool: Option<Seq<u8>>) -> Seq<SettingView> {
    match data_pool {
        Some(p) => seq![
            SettingView { option: ImageOption::DataPool, value: ValueView::Text(p), checked: true },
        ],
        None => Seq::empty(),
    }
}

/// The option list of image creation: the format (1 for an old-style
/// image, 2 otherwise; its failure is not checked), the features and the
/// order when they are given, the stripe unit and count, zero (librbd's
/// default) when they are not given, and the data pool when one is given.
pub open spec fn creation_settings(
    order: Option<u64>,
    old_format: bool,
    features: Option<u64>,
    stripe_unit: Option<u64>,
    stripe_count: Option<u64>,
    data_pool: Option<Seq<u8>>,
) -> Seq<SettingView> {
    seq![setting(ImageOption::Format, image_format(old_format), false)] + given(
        ImageOption::Features,
        features,
    ) + given(ImageOption::Order, order) + seq![
        setting(ImageOption::StripeUnit, or_zero(stripe_unit), true),
        setting(ImageOption::StripeCount, or_zero(stripe_count), true),
    ] + given_pool(data_pool)
}

/// The option list of cloning and copying an image: the features when they
/// are given, then the order, the stripe unit and the stripe count, each
/// zero (librbd's default) when it is not given.
pub open spec fn derived_settings(
    features: Option<u64>,
    order: Option<u64>,
    stripe_unit: Option<u64>,
    stripe_count: Option<u64>,
) -> Seq<SettingView> {
    given(ImageOption::Features, features) + seq![
        setting(ImageOption::Order, or_zero(order), true),
        setting(ImageOption::StripeUnit, or_zero(stripe_unit), true),
        setting(ImageOption::StripeCount, or_zero(stripe_count), true),
    ]
}

/// The value of an optional argument, zero when it is absent.
pub fn value_or_zero(v: Option<u64>) -> (r: u64)
    ensures
        r == or_zero(v),
{
    match v {
        Some(x) => x,
        None => 0,
    }
}

/// Appends a checked setting of a number.
fn push_number(settings: &mut Vec<OptionSetting>, option: ImageOption, value: u64, checked: bool)
    ensures
        setting_views(final(settings)@) == setting_views(old(settings)@).push(
            setting(option, value, checked),
        ),
{
    settings.push(OptionSetting { option, value: OptionValue::Number(value), checked });
    assert(setting_views(final(settings)@) =~= setting_views(old(settings)@).push(
        setting(option, value, checked),
    ));
}

/// Appends a checked setting of `option` when a value is given.
fn push_given(settings: &mut Vec<OptionSetting>, option: ImageOption, v: Option<u64>)
    ensures
        setting_views(final(settings)@) == setting_views(old(settings)@) + given(option, v),
{
    match v {
        Some(x) => {
            push_number(settings, option, x, true);
            assert(setting_views(final(settings)@) =~= setting_views(old(settings)@) + given(
                option,
                v,
            ));
        },
        None => {
            assert(setting_views(old(settings)@) + given(option, v) =~= setting_views(
                old(settings)@,
            ));
        },
    }
}

/// The bytes of an optional C string.
pub open spec fn text_view(t: Option<Vec<u8>>) -> Option<Seq<u8>> {
    match t {
        Some(p) => Some(p@),
        None => None,
    }
}

/// The option list that image creation sets; the data pool comes as the
/// bytes of its C string.
pub fn creation_options(
    order: Option<u64>,
    old_format: bool,
    features: Option<u64>,
    stripe_unit: Option<u64>,
    stripe_count: Option<u64>,
    data_pool: Option<Vec<u8>>,
) -> (r: Vec<OptionSetting>)
    ensures
        setting_views(r@) == creation_settings(
            order,
            old_format,
            features,
            stripe_unit,
            stripe_count,
            text_view(data_pool),
        ),
        r@.len() <= 6,
{
    let ghost pool = text_view(data_pool);
    let mut settings: Vec<OptionSetting> = Vec::new();
    let format = if old_format {
        1
    } else {
        2
    };
    push_number(&mut settings, ImageOption::Format, format, false);
    push_given(&mut settings, ImageOption::Features, features);
    push_given(&mut settings, ImageOption::Order, order);
    push_number(&mut settings, ImageOption::StripeUnit, value_or_zero(stripe_unit), true);
    push_number(&mut settings, ImageOption::StripeCount, value_or_zero(stripe_count), true);
    let ghost before = setting_views(settings@);
    match data_pool {
        Some(p) => {
            settings.push(
                OptionSetting { option: ImageOption::DataPool, value: OptionValue::Text(p), checked: true },
            );
            assert(setting_views(settings@) =~= before + given_pool(pool));
        },
        None => {
            assert(before + given_pool(pool) =~= before);
        },
    }
    assert(setting_views(settings@) =~= creation_settings(
        order,
        old_format,
        features,
        stripe_unit,
        stripe_count,
        pool,
    ));
    settings
}

/// The option list that cloning and copying an image set.
pub fn derived_options(
    features: Option<u64>,
    order: Option<u64>,
    stripe_unit: Option<u64>,
    stripe_count: Option<u64>,
) -> (r: Vec<OptionSetting>)
    ensures
        setting_views(r@) == derived_settings(features, order, stripe_unit, stripe_count),
        r@.len() <= 4,
{
    let mut settings: Vec<OptionSetting> = Vec::new();
    push_given(&mut settings, ImageOption::Features, features);
    push_number(&mut settings, ImageOption::Order, value_or_zero(order), true);
    push_number(&mut settings, ImageOption::StripeUnit, value_or_zero(stripe_unit), true);
    push_number(&mut settings, ImageOption::StripeCount, value_or_zero(stripe_count), true);
    assert(setting_views(settings@) =~= derived_settings(features, order, stripe_unit, stripe_count));
    settings
}

/// The next thing to do for a request built on an image option list.
#[derive(Debug)]
pub enum OptionStep {
    /// Set this option to this value in the option list.
    Apply(ImageOption, OptionValue),
    /// Make the request itself (create, clone or copy) with the option list.
    Submit,
    /// Destroy the option list.
    Destroy,
    /// The request is over, with this result.
    Finish(Result<(), RbdError>),
}

/// A step as mathematics sees it.
pub enum StepView {
    Apply(ImageOption, ValueView),
    Submit,
    Destroy,
    Finish(Result<(), RbdError>),
}

impl View for OptionStep {
    type V = StepView;

    open spec fn view(&self) -> StepView {
        match self {
            OptionStep::Apply(o, v) => StepView::Apply(*o, v@),
            OptionStep::Submit => StepView::Submit,
            OptionStep::Destroy => StepView::Destroy,
            OptionStep::Finish(r) => StepView::Finish(*r),
        }
    }
}

/// The first failure among the answers received so far: a negative answer
/// to a checked setting, or to the request itself, which comes right after
/// the settings.
pub open spec fn failure_of(settings: Seq<SettingView>, answers: Seq<i32>) -> Option<i32>
    decreases answers.len(),
{
    if answers.len() == 0 {
        None
    } else {
        match failure_of(settings, answers.drop_last()) {
            Some(c) => Some(c),
            None => {
                let k = answers.len() - 1;
                if k < settings.len() && settings[k].checked && answers[k] < 0 {
                    Some(answers[k])
                } else if k == settings.len() && answers[k] < 0 {
                    Some(answers[k])
                } else {
                    None
                }
            },
        }
    }
}

/// The step that follows the answers received so far: the settings in
/// order, then the request, then the destruction of the option list, then
/// success; a failure ends the request at once with its code.
pub open spec fn expected_step(settings: Seq<SettingView>, answers: Seq<i32>) -> StepView {
    match failure_of(settings, answers) {
        Some(c) => StepView::Finish(Err(RbdError::Api(c))),
        None => if answers.len() < settings.len() {
            StepView::Apply(settings[answers.len() as int].option, settings[answers.len() as int].value)
        } else if answers.len() == settings.len() {
            StepView::Submit
        } else if answers.len() == settings.len() + 1 {
            StepView::Destroy
        } else {
            StepView::Finish(Ok(()))
        },
    }
}

/// The answers a request can have received: at most one per setting, one
/// for the request and one for destroying the option list, and none after
/// a failure.
pub open spec fn reachable(settings: Seq<SettingView>, answers: Seq<i32>) -> bool {
    &&& answers.len() <= settings.len() + 2
    &&& answers.len() > 0 ==> failure_of(settings, answers.drop_last()) is None
}

/// A step that ends the request.
pub open spec fn is_finish(step: StepView) -> bool {
    step is Finish
}

/// Drives a create, clone or copy request through its image option list:
/// it says what to do next and takes the return code of each call.
pub struct OptionsRun {
    settings: Vec<OptionSetting>,
    progress: Progress,
}

/// How far a request has come: the codes received, their number, and the
/// failure among them, if any.
struct Progress {
    answers: Ghost<Seq<i32>>,
    recorded: usize,
    failure: Option<i32>,
}

impl OptionsRun {
    #[verifier::type_invariant]
    spec fn consistent(self) -> bool {
        &&& self.settings@.len() + 2 < usize::MAX
        &&& self.progress.recorded == self.progress.answers@.len()
        &&& self.progress.recorded <= self.settings@.len() + 2
        &&& self.progress.failure == failure_of(setting_views(self.settings@), self.progress.answers@)
        &&& self.progress.answers@.len() > 0 ==> failure_of(setting_views(self.settings@), self.progress.answers@.drop_last()) is None
    }

    /// The settings the request goes through, in order.
    pub closed spec fn settings(self) -> Seq<SettingView> {
        setting_views(self.settings@)
    }

    /// The return codes received so far, one per step taken.
    pub closed spec fn answers(self) -> Seq<i32> {
        self.progress.answers@
    }

    /// A request that has yet to take its first step.
    pub fn new(settings: Vec<OptionSetting>) -> (run: Self)
        requires
            settings@.len() + 2 < usize::MAX,
        ensures
            run.settings() == setting_views(settings@),
            run.answers() == Seq::<i32>::empty(),
            reachable(run.settings(), run.answers()),
    {
        OptionsRun {
            settings,
            progress: Progress { answers: Ghost(Seq::empty()), recorded: 0, failure: None },
        }
    }

    /// What to do next.
    pub fn next_step(&self) -> (step: OptionStep)
        ensures
            step@ == expected_step(self.settings(), self.answers()),
            reachable(self.settings(), self.answers()),
    {
        proof {
            use_type_invariant(self);
        }
        match self.progress.failure {
            Some(c) => OptionStep::Finish(Err(RbdError::Api(c))),
            None => {
                let n = self.settings.len();
                if self.progress.recorded < n {
                    let s = &self.settings[self.progress.recorded];
                    OptionStep::Apply(s.option, copy_value(&s.value))
                } else if self.progress.recorded == n {
                    OptionStep::Submit
                } else if self.progress.recorded == n + 1 {
                    OptionStep::Destroy
                } else {
                    OptionStep::Finish(Ok(()))
                }
            },
        }
    }

    /// Takes the return code of the step just made. Once the request is
    /// over, nothing more is taken.
    pub fn record(&mut self, code: i32)
        ensures
            final(self).settings() == old(self).settings(),
            is_finish(expected_step(old(self).settings(), old(self).answers()))
                ==> final(self).answers() == old(self).answers(),
            !is_finish(expected_step(old(self).settings(), old(self).answers()))
                ==> final(self).answers() == old(self).answers().push(code),
            reachable(final(self).settings(), final(self).answers()),
    {
        proof {
            use_type_invariant(&*self);
        }
        let n = self.settings.len();
        if self.progress.failure.is_none() && self.progress.recorded <= n + 1 {
            let k = self.progress.recorded;
            let failed = if k < n {
                self.settings[k].checked && code < 0
            } else {
                k == n && code < 0
            };
            let ghost before = self.progress.answers@;
            proof {
                assert(before.push(code).drop_last() =~= before);
            }
            let failure = if failed {
                Some(code)
            } else {
                None
            };
            self.progress = Progress {
                answers: Ghost(before.push(code)),
                recorded: k + 1,
                failure,
            };
        }
    }
}

} // verus!
