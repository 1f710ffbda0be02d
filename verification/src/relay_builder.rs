//! The plan of a relay: which middlewares it has, in which order, and with which limits.

use crate::config::{RelayConfig, CHANNEL_OVERHEAD};
use crate::error::Error;
use crate::event_processor::DefaultRelayProcessor;
use crate::handlers::{default_relay_html, relay_html, RelayInfo};
use crate::middleware_chain::{from_on, Chain};
use crate::relay_middleware::RelayMiddleware;
use crate::sdk::{key_of, public_key_of};
use vstd::prelude::*;

verus! {

/// What a browser is shown.
#[derive(Debug, Clone, Copy, PartialEq, Eq, Structural)]
pub enum HtmlOption {
    /// Nothing: the page is not found.
    Disabled,
    /// What the relay says of itself.
    Default,
    /// A page that the program makes.
    Custom,
}

impl Default for HtmlOption {
    fn default() -> (r: HtmlOption)
        ensures
            r is Default,
    {
        HtmlOption::Default
    }
}

impl HtmlOption {
    /// The page of the relay, where it is not made by the program.
    pub fn page(&self, info: &RelayInfo) -> (r: Option<String>)
        ensures
            match *self {
                HtmlOption::Default => r matches Some(page) && page@ == relay_html(*info),
                _ => r is None,
            },
    {
        match self {
            HtmlOption::Default => Some(default_relay_html(info)),
            _ => None,
        }
    }
}

/// A layer of the relay.
#[derive(Debug, Clone, Copy, PartialEq, Eq, Structural)]
pub enum Layer {
    /// The core of the relay.
    Relay,
    /// A middleware of the program, by its place.
    Custom(usize),
    Metrics,
    Auth,
    ErrorHandling,
    Logger,
    /// A layer that does nothing, in the place of one that is not wanted.
    Identity,
}

/// The layers of the program.
pub open spec fn custom_layers(count: nat) -> Seq<Layer> {
    Seq::new(count, |i: int| Layer::Custom(i as usize))
}

/// A layer where it is wanted, and one that does nothing in its place where it is not.
pub open spec fn layer_if(wanted: bool, layer: Layer) -> Layer {
    if wanted {
        layer
    } else {
        Layer::Identity
    }
}

/// The plan of a relay.
pub struct RelayPlan {
    /// The layers from the innermost to the outermost.
    pub layers: Vec<Layer>,
    /// The largest number of subscriptions of a connection, where there is one.
    pub max_subscriptions: Option<usize>,
    /// The largest number of events that a filter may ask for.
    pub max_limit: usize,
    /// The room of a connection's channel.
    pub channel_size: usize,
}

impl RelayPlan {
    /// The positions up to a number.
    fn first_positions(count: usize) -> (r: Vec<usize>)
        ensures
            r@ == Seq::new(count as nat, |i: int| i as usize),
    {
        let mut r: Vec<usize> = Vec::new();
        let mut i: usize = 0;
        while i < count
            invariant
                i <= count,
                r@ == Seq::new(i as nat, |k: int| k as usize),
            decreases count - i,
        {
            r.push(i);
            i = i + 1;
            proof {
                assert(r@ =~= Seq::new(i as nat, |k: int| k as usize));
            }
        }
        r
    }
}

impl Chain for RelayPlan {
    /// Each layer has its place as its position.
    open spec fn positions(&self) -> Seq<usize> {
        Seq::new(self.layers@.len(), |i: int| i as usize)
    }

    fn inbound_route(&self) -> (r: Vec<usize>) {
        let count: usize = self.layers.len();
        let mut r: Vec<usize> = Vec::new();
        let mut i: usize = count;
        while i > 0
            invariant
                i <= count,
                count == self.layers@.len(),
                r@.len() == count - i,
                forall|k: int| 0 <= k < r@.len() ==> #[trigger] r@[k] == count - 1 - k,
            decreases i,
        {
            i = i - 1;
            r.push(i);
        }
        proof {
            assert(r@ =~= self.positions().reverse());
        }
        r
    }

    fn outbound_route(&self, from_position: usize) -> (r: Vec<usize>) {
        let count: usize = self.layers.len();
        let mut r: Vec<usize> = Vec::new();
        let mut i: usize = 0;
        proof {
            assert(self.positions().take(0) =~= Seq::empty());
        }
        while i < count
            invariant
                i <= count,
                count == self.layers@.len(),
                r@ == from_on(self.positions().take(i as int), from_position),
            decreases count - i,
        {
            proof {
                assert(self.positions().take(i + 1).drop_last() =~= self.positions().take(i as int));
                assert(self.positions().take(i + 1).last() == i);
            }
            if from_position <= i {
                r.push(i);
            }
            i = i + 1;
        }
        proof {
            assert(self.positions().take(count as int) =~= self.positions());
        }
        r
    }

    fn disconnect_route(&self) -> (r: Vec<usize>) {
        RelayPlan::first_positions(self.layers.len())
    }
}

/// What is asked of a relay, over a store of type `D` and with rules of type `P`.
pub struct RelayBuilder<D, P> {
    pub config: RelayConfig<D>,
    /// The rules of the relay.
    pub processor: P,
    /// Whether there is a handler for metrics.
    pub has_metrics_handler: bool,
    /// Whether there is a handler for the number of subscriptions.
    pub has_subscription_metrics: bool,
    pub html_option: HtmlOption,
    /// What the relay says of itself.
    pub relay_info: Option<RelayInfo>,
    pub without_defaults: bool,
    pub enable_logger: bool,
    pub enable_error_handling: bool,
    pub enable_metrics: bool,
}

impl<D> RelayBuilder<D, DefaultRelayProcessor> {
    /// A relay with the usual middlewares and the rules of a public relay.
    pub fn new(config: RelayConfig<D>) -> (r: RelayBuilder<D, DefaultRelayProcessor>)
        ensures
            r == (RelayBuilder {
                config,
                processor: DefaultRelayProcessor,
                has_metrics_handler: false,
                has_subscription_metrics: false,
                html_option: HtmlOption::Default,
                relay_info: None,
                without_defaults: false,
                enable_logger: true,
                enable_error_handling: true,
                enable_metrics: false,
            }),
    {
        RelayBuilder {
            config,
            processor: DefaultRelayProcessor,
            has_metrics_handler: false,
            has_subscription_metrics: false,
            html_option: HtmlOption::Default,
            relay_info: None,
            without_defaults: false,
            enable_logger: true,
            enable_error_handling: true,
            enable_metrics: false,
        }
    }
}

impl<D, P> RelayBuilder<D, P> {
    /// Sets the rules of the relay.
    pub fn event_processor<Q>(self, processor: Q) -> (r: RelayBuilder<D, Q>)
        ensures
            r == (RelayBuilder {
                config: self.config,
                processor,
                has_metrics_handler: self.has_metrics_handler,
                has_subscription_metrics: self.has_subscription_metrics,
                html_option: self.html_option,
                relay_info: self.relay_info,
                without_defaults: self.without_defaults,
                enable_logger: self.enable_logger,
                enable_error_handling: self.enable_error_handling,
                enable_metrics: self.enable_metrics,
            }),
    {
        RelayBuilder {
            config: self.config,
            processor,
            has_metrics_handler: self.has_metrics_handler,
            has_subscription_metrics: self.has_subscription_metrics,
            html_option: self.html_option,
            relay_info: self.relay_info,
            without_defaults: self.without_defaults,
            enable_logger: self.enable_logger,
            enable_error_handling: self.enable_error_handling,
            enable_metrics: self.enable_metrics,
        }
    }

    /// Adds metrics.
    pub fn metrics(self) -> (r: RelayBuilder<D, P>)
        ensures
            r == (RelayBuilder { has_metrics_handler: true, enable_metrics: true, ..self }),
    {
        RelayBuilder { has_metrics_handler: true, enable_metrics: true, ..self }
    }

    /// Reports the number of subscriptions.
    pub fn subscription_metrics(self) -> (r: RelayBuilder<D, P>)
        ensures
            r == (RelayBuilder { has_subscription_metrics: true, ..self }),
    {
        RelayBuilder { has_subscription_metrics: true, ..self }
    }

    /// Leaves the usual middlewares out.
    pub fn without_defaults(self) -> (r: RelayBuilder<D, P>)
        ensures
            r == (RelayBuilder {
                without_defaults: true,
                enable_logger: false,
                enable_error_handling: false,
                ..self
            }),
    {
        RelayBuilder {
            without_defaults: true,
            enable_logger: false,
            enable_error_handling: false,
            ..self
        }
    }

    /// Sets what the relay says of itself.
    pub fn relay_info(self, relay_info: RelayInfo) -> (r: RelayBuilder<D, P>)
        ensures
            r == (RelayBuilder { relay_info: Some(relay_info), ..self }),
    {
        RelayBuilder { relay_info: Some(relay_info), ..self }
    }

    /// Starts over with another type of state for the connections: the handlers and the rules,
    /// which go with the state, are gone, and the rules of a public relay hold.
    pub fn custom_state(self) -> (r: RelayBuilder<D, DefaultRelayProcessor>)
        ensures
            r == (RelayBuilder {
                config: self.config,
                processor: DefaultRelayProcessor,
                has_metrics_handler: false,
                has_subscription_metrics: false,
                html_option: self.html_option,
                relay_info: self.relay_info,
                without_defaults: self.without_defaults,
                enable_logger: self.enable_logger,
                enable_error_handling: self.enable_error_handling,
                enable_metrics: self.enable_metrics,
            }),
    {
        RelayBuilder {
            config: self.config,
            processor: DefaultRelayProcessor,
            has_metrics_handler: false,
            has_subscription_metrics: false,
            html_option: self.html_option,
            relay_info: self.relay_info,
            without_defaults: self.without_defaults,
            enable_logger: self.enable_logger,
            enable_error_handling: self.enable_error_handling,
            enable_metrics: self.enable_metrics,
        }
    }

    /// Sets what a browser is shown.
    pub fn html(self, html_option: HtmlOption) -> (r: RelayBuilder<D, P>)
        ensures
            r == (RelayBuilder { html_option, ..self }),
    {
        RelayBuilder { html_option, ..self }
    }

    /// Shows a browser nothing.
    pub fn without_html(self) -> (r: RelayBuilder<D, P>)
        ensures
            r == (RelayBuilder { html_option: HtmlOption::Disabled, ..self }),
    {
        RelayBuilder { html_option: HtmlOption::Disabled, ..self }
    }

    /// Shows a browser a page that the program makes.
    pub fn custom_html(self) -> (r: RelayBuilder<D, P>)
        ensures
            r == (RelayBuilder { html_option: HtmlOption::Custom, ..self }),
    {
        RelayBuilder { html_option: HtmlOption::Custom, ..self }
    }

    /// Leaves the logger out.
    pub fn without_logger(self) -> (r: RelayBuilder<D, P>)
        ensures
            r == (RelayBuilder { enable_logger: false, ..self }),
    {
        RelayBuilder { enable_logger: false, ..self }
    }

    /// Leaves the handling of errors out: they reach the connection.
    pub fn without_error_handling(self) -> (r: RelayBuilder<D, P>)
        ensures
            r == (RelayBuilder { enable_error_handling: false, ..self }),
    {
        RelayBuilder { enable_error_handling: false, ..self }
    }

    /// The layers of the relay, from the innermost to the outermost: the core, the middlewares of
    /// the program, metrics, authentication, the handling of errors, and the logger.
    pub open spec fn planned_layers(self, custom: nat) -> Seq<Layer> {
        let usual = !self.without_defaults;
        seq![Layer::Relay] + custom_layers(custom) + seq![
            layer_if(self.enable_metrics && self.has_metrics_handler, Layer::Metrics),
            layer_if(usual && self.config.enable_auth, Layer::Auth),
            layer_if(usual && self.enable_error_handling, Layer::ErrorHandling),
            layer_if(usual && self.enable_logger, Layer::Logger),
        ]
    }

    /// The plan of a relay without middlewares of the program.
    pub fn build(&self) -> (r: Result<RelayPlan, Error>)
        requires
            self.config.max_limit + CHANNEL_OVERHEAD <= usize::MAX,
            self.config.max_subscriptions * (self.config.max_limit + CHANNEL_OVERHEAD)
                <= usize::MAX,
        ensures
            self.plan_fits(r, 0),
    {
        self.build_with(0)
    }

    /// The plan fits what is asked; there is none without a store.
    pub open spec fn plan_fits(self, r: Result<RelayPlan, Error>, custom: nat) -> bool {
        match r {
            Ok(plan) => {
                &&& self.config.database is Some
                &&& plan.layers@ == self.planned_layers(custom)
                &&& plan.max_subscriptions == subscription_limit(self.config.max_subscriptions)
                &&& plan.max_limit == self.config.max_limit
                &&& plan.channel_size == self.config.max_subscriptions * (self.config.max_limit
                    + CHANNEL_OVERHEAD)
            },
            Err(e) => self.config.database is None && (e matches Error::Internal { message }
                && message@ == "Database configuration is required"@),
        }
    }

    /// The plan of a relay with a number of middlewares of the program.
    pub fn build_with(&self, custom: usize) -> (r: Result<RelayPlan, Error>)
        requires
            self.config.max_limit + CHANNEL_OVERHEAD <= usize::MAX,
            self.config.max_subscriptions * (self.config.max_limit + CHANNEL_OVERHEAD)
                <= usize::MAX,
        ensures
            self.plan_fits(r, custom as nat),
    {
        if let Err(e) = self.config.database_or_error() {
            return Err(e);
        }
        let mut layers: Vec<Layer> = Vec::new();
        layers.push(Layer::Relay);
        let mut i: usize = 0;
        while i < custom
            invariant
                i <= custom,
                layers@ == seq![Layer::Relay] + custom_layers(i as nat),
            decreases custom - i,
        {
            layers.push(Layer::Custom(i));
            proof {
                assert(custom_layers((i + 1) as nat) =~= custom_layers(i as nat).push(
                    Layer::Custom(i),
                ));
                assert(layers@ =~= seq![Layer::Relay] + custom_layers((i + 1) as nat));
            }
            i = i + 1;
        }
        let usual = !self.without_defaults;
        layers.push(
            if self.enable_metrics && self.has_metrics_handler {
                Layer::Metrics
            } else {
                Layer::Identity
            },
        );
        layers.push(
            if usual && self.config.enable_auth {
                Layer::Auth
            } else {
                Layer::Identity
            },
        );
        layers.push(
            if usual && self.enable_error_handling {
                Layer::ErrorHandling
            } else {
                Layer::Identity
            },
        );
        layers.push(
            if usual && self.enable_logger {
                Layer::Logger
            } else {
                Layer::Identity
            },
        );
        proof {
            assert(layers@ =~= self.planned_layers(custom as nat));
        }
        Ok(
            RelayPlan {
                layers,
                max_subscriptions: limit_of(self.config.max_subscriptions),
                max_limit: self.config.max_limit,
                channel_size: self.config.calculate_channel_size(),
            },
        )
    }

    /// The core of the relay, with its rules, its key and its limits.
    pub fn relay_middleware(self) -> (r: RelayMiddleware<P>)
        ensures
            r == (RelayMiddleware {
                processor: self.processor,
                relay_pubkey: public_key_of(self.config.keys),
                max_limit: self.config.max_limit,
                max_subscriptions: subscription_limit(self.config.max_subscriptions),
            }),
    {
        let max_subscriptions = limit_of(self.config.max_subscriptions);
        let relay_pubkey = key_of(&self.config.keys);
        RelayMiddleware::new(
            self.processor,
            relay_pubkey,
            self.config.max_limit,
            max_subscriptions,
        )
    }
}

/// The largest number of subscriptions of a connection: zero stands for no limit.
pub open spec fn subscription_limit(max_subscriptions: usize) -> Option<usize> {
    if max_subscriptions > 0 {
        Some(max_subscriptions)
    } else {
        None
    }
}

fn limit_of(max_subscriptions: usize) -> (r: Option<usize>)
    ensures
        r == subscription_limit(max_subscriptions),
{
    if max_subscriptions > 0 {
        Some(max_subscriptions)
    } else {
        None
    }
}

/// Whatever the program adds, the core of the relay is the innermost layer, and the middlewares
/// of the program come next, inside authentication, the handling of errors and the logger.
pub proof fn law_layer_order<D, P>(builder: RelayBuilder<D, P>, custom: nat)
    ensures
        ({
            let layers = builder.planned_layers(custom);
            &&& layers.len() == custom + 5
            &&& layers[0] == Layer::Relay
            &&& forall|i: int| 0 <= i < custom ==> #[trigger] layers[i + 1] == Layer::Custom(i as usize)
            &&& builder.without_defaults ==> layers[(custom + 2) as int] == Layer::Identity
                && layers[(custom + 3) as int] == Layer::Identity && layers[(custom + 4) as int] == Layer::Identity
        }),
{
}

/// Each of the usual layers is in its place where it is wanted, and a layer that does nothing is
/// there where it is not: outside the middlewares of the program come metrics, where they have a
/// handler, then authentication, the handling of errors, and the logger outermost.
pub proof fn law_usual_layers<D, P>(builder: RelayBuilder<D, P>, custom: nat)
    ensures
        builder.planned_layers(custom)[custom as int + 1] == if builder.enable_metrics
            && builder.has_metrics_handler {
            Layer::Metrics
        } else {
            Layer::Identity
        },
        builder.planned_layers(custom)[custom as int + 2] == if builder.config.enable_auth
            && !builder.without_defaults {
            Layer::Auth
        } else {
            Layer::Identity
        },
        builder.planned_layers(custom)[custom as int + 3] == if builder.enable_error_handling
            && !builder.without_defaults {
            Layer::ErrorHandling
        } else {
            Layer::Identity
        },
        builder.planned_layers(custom)[custom as int + 4] == if builder.enable_logger
            && !builder.without_defaults {
            Layer::Logger
        } else {
            Layer::Identity
        },
{
}

/// A relay needs a store and nothing else; its limits are those of its configuration, where zero
/// subscriptions stand for no limit, and the room of a connection's channel is for all the events
/// that its subscriptions may ask for and five messages more each.
pub proof fn law_plans_follow_the_configuration<D, P>(
    builder: RelayBuilder<D, P>,
    r: Result<RelayPlan, Error>,
    custom: nat,
)
    requires
        builder.plan_fits(r, custom),
    ensures
        r is Ok <==> builder.config.database is Some,
        r matches Ok(plan) ==> {
            &&& plan.layers@.len() == custom + 5
            &&& plan.max_limit == builder.config.max_limit
            &&& plan.max_subscriptions is None <==> builder.config.max_subscriptions == 0
            &&& plan.max_subscriptions matches Some(max) ==> max == builder.config.max_subscriptions
            &&& plan.channel_size == builder.config.max_subscriptions * builder.config.max_limit + 5
                * builder.config.max_subscriptions
        },
{
    let n = builder.config.max_subscriptions as int;
    let m = builder.config.max_limit as int;
    assert(n * (m + 5) == n * m + 5 * n) by (nonlinear_arith);
}

} // verus!
